//! Reproducible workload generation: a population of random alphanumeric
//! keys drawn from a seeded generator, optionally shuffled by a second,
//! independent generator, then cut to the requested count.

use vstd::prelude::*;

use crate::random::{drawn_index, entropy_rng, is_permutation, random_seed, shuffle_order, SeededRng};
use crate::task::{lemma_ascii_is_utf8, Error, Key, Method, Task, ValueSpec};

verus! {

/// What to generate: the kind of task, how many, from how large a key
/// population, with which key size and seeds.
#[derive(Debug)]
pub enum WorkloadCommand {
    Put {
        count: usize,
        population_size: Option<usize>,
        key_size: usize,
        value_size: usize,
        seed: Option<String>,
        shuffle: Option<String>,
    },
    Get {
        count: usize,
        population_size: Option<usize>,
        key_size: usize,
        seed: Option<String>,
        shuffle: Option<String>,
    },
    Delete {
        count: usize,
        population_size: Option<usize>,
        key_size: usize,
        seed: Option<String>,
        shuffle: Option<String>,
    },
}

impl WorkloadCommand {
    pub open spec fn spec_count(&self) -> usize {
        match self {
            WorkloadCommand::Put { count, .. } => *count,
            WorkloadCommand::Get { count, .. } => *count,
            WorkloadCommand::Delete { count, .. } => *count,
        }
    }

    pub open spec fn spec_population_size(&self) -> Option<usize> {
        match self {
            WorkloadCommand::Put { population_size, .. } => *population_size,
            WorkloadCommand::Get { population_size, .. } => *population_size,
            WorkloadCommand::Delete { population_size, .. } => *population_size,
        }
    }

    pub open spec fn spec_key_size(&self) -> usize {
        match self {
            WorkloadCommand::Put { key_size, .. } => *key_size,
            WorkloadCommand::Get { key_size, .. } => *key_size,
            WorkloadCommand::Delete { key_size, .. } => *key_size,
        }
    }

    pub open spec fn spec_seed(&self) -> Option<String> {
        match self {
            WorkloadCommand::Put { seed, .. } => *seed,
            WorkloadCommand::Get { seed, .. } => *seed,
            WorkloadCommand::Delete { seed, .. } => *seed,
        }
    }

    pub open spec fn spec_shuffle(&self) -> Option<String> {
        match self {
            WorkloadCommand::Put { shuffle, .. } => *shuffle,
            WorkloadCommand::Get { shuffle, .. } => *shuffle,
            WorkloadCommand::Delete { shuffle, .. } => *shuffle,
        }
    }

    pub open spec fn spec_method(&self) -> Method {
        match self {
            WorkloadCommand::Put { .. } => Method::Put,
            WorkloadCommand::Get { .. } => Method::Get,
            WorkloadCommand::Delete { .. } => Method::Delete,
        }
    }

    /// The population size: the given one, or else the count.
    pub open spec fn population(&self) -> usize {
        match self.spec_population_size() {
            Some(p) => p,
            None => self.spec_count(),
        }
    }

    pub fn count(&self) -> (r: usize)
        ensures
            r == self.spec_count(),
    {
        match self {
            WorkloadCommand::Put { count, .. } => *count,
            WorkloadCommand::Get { count, .. } => *count,
            WorkloadCommand::Delete { count, .. } => *count,
        }
    }

    pub fn population_size(&self) -> (r: Option<usize>)
        ensures
            r == self.spec_population_size(),
    {
        match self {
            WorkloadCommand::Put { population_size, .. } => *population_size,
            WorkloadCommand::Get { population_size, .. } => *population_size,
            WorkloadCommand::Delete { population_size, .. } => *population_size,
        }
    }

    pub fn key_size(&self) -> (r: usize)
        ensures
            r == self.spec_key_size(),
    {
        match self {
            WorkloadCommand::Put { key_size, .. } => *key_size,
            WorkloadCommand::Get { key_size, .. } => *key_size,
            WorkloadCommand::Delete { key_size, .. } => *key_size,
        }
    }

    pub fn seed(&self) -> (r: Option<&str>)
        ensures
            r is Some <==> self.spec_seed() is Some,
            r matches Some(s) ==> s@ == self.spec_seed()->0@,
    {
        let seed = match self {
            WorkloadCommand::Put { seed, .. } => seed,
            WorkloadCommand::Get { seed, .. } => seed,
            WorkloadCommand::Delete { seed, .. } => seed,
        };
        match seed {
            Some(s) => Some(s.as_str()),
            None => None,
        }
    }

    pub fn shuffle(&self) -> (r: Option<&str>)
        ensures
            r is Some <==> self.spec_shuffle() is Some,
            r matches Some(s) ==> s@ == self.spec_shuffle()->0@,
    {
        let shuffle = match self {
            WorkloadCommand::Put { shuffle, .. } => shuffle,
            WorkloadCommand::Get { shuffle, .. } => shuffle,
            WorkloadCommand::Delete { shuffle, .. } => shuffle,
        };
        match shuffle {
            Some(s) => Some(s.as_str()),
            None => None,
        }
    }
}

/// The bytes a seed string contributes: its UTF-8 encoding.
pub open spec fn seed_bytes(seed: Seq<char>) -> Seq<u8> {
    vstd::utf8::encode_utf8(seed)
}

/// An optional seed can seed a generator: absent, or at most 32 bytes.
pub open spec fn seed_fits(seed: Option<String>) -> bool {
    match seed {
        Some(s) => seed_bytes(s@).len() <= 32,
        None => true,
    }
}

/// The byte length of an optional seed.
pub open spec fn seed_length(seed: Option<String>) -> usize {
    match seed {
        Some(s) => seed_bytes(s@).len() as usize,
        None => 0,
    }
}

/// The 32 bytes a generator is seeded with: the seed's bytes, then zeros.
pub open spec fn padded_seed(bytes: Seq<u8>) -> Seq<u8> {
    Seq::new(32, |i: int| if i < bytes.len() { bytes[i] } else { 0u8 })
}

/// The padded seed of an optional seed string.
pub open spec fn padded_option(seed: Option<String>) -> Option<Seq<u8>> {
    match seed {
        Some(s) => Some(padded_seed(seed_bytes(s@))),
        None => None,
    }
}

/// The 32-byte seed for a seed string: its bytes, then zeros. Fails with
/// `SeedTooLong` exactly when the string has more than 32 bytes.
pub fn pad_seed(seed: &str) -> (r: Result<[u8; 32], Error>)
    ensures
        r is Ok <==> seed_bytes(seed@).len() <= 32,
        r matches Ok(padded) ==> padded@ == padded_seed(seed_bytes(seed@)),
        r matches Err(e) ==> e == (Error::SeedTooLong { len: seed_bytes(seed@).len() as usize }),
{
    let bytes = seed.as_bytes();
    if bytes.len() > 32 {
        return Err(Error::SeedTooLong { len: bytes.len() });
    }
    let mut padded: [u8; 32] = [0u8; 32];
    let mut i: usize = 0;
    while i < bytes.len()
        invariant
            bytes@ == seed_bytes(seed@),
            i <= bytes@.len() <= 32,
            forall|j: int|
                0 <= j < 32 ==> #[trigger] padded@[j] == if j < i {
                    bytes@[j]
                } else {
                    0u8
                },
        decreases bytes@.len() - i,
    {
        padded[i] = bytes[i];
        i = i + 1;
    }
    assert(padded@ =~= padded_seed(seed_bytes(seed@)));
    Ok(padded)
}

/// Trailing zero bytes, up to 32 in all, do not change a padded seed.
pub proof fn lemma_trailing_zeros_pad_alike(bytes: Seq<u8>, zeros: nat)
    requires
        bytes.len() + zeros <= 32,
    ensures
        padded_seed(bytes + Seq::new(zeros, |_i: int| 0u8)) == padded_seed(bytes),
{
    assert(padded_seed(bytes + Seq::new(zeros, |_i: int| 0u8)) =~= padded_seed(bytes));
}

/// The 62 symbols keys are drawn from, in drawing order: digits, lower case,
/// upper case.
pub open spec fn key_alphabet() -> Seq<u8> {
    Seq::new(
        62,
        |i: int|
            if i < 10 {
                (0x30 + i) as u8
            } else if i < 36 {
                (0x61 + i - 10) as u8
            } else {
                (0x41 + i - 36) as u8
            },
    )
}

/// A byte of the key alphabet.
pub open spec fn is_key_symbol(b: u8) -> bool {
    (0x30 <= b <= 0x39) || (0x61 <= b <= 0x7a) || (0x41 <= b <= 0x5a)
}

/// The key alphabet, in its drawing order.
pub fn key_symbols() -> (r: Vec<u8>)
    ensures
        r@ == key_alphabet(),
{
    let mut symbols: Vec<u8> = Vec::new();
    let mut c: u8 = 0x30;
    while c <= 0x39
        invariant
            0x30 <= c <= 0x3a,
            symbols@ =~= key_alphabet().subrange(0, c - 0x30),
        decreases 0x3a - c,
    {
        symbols.push(c);
        c = c + 1;
    }
    let mut c: u8 = 0x61;
    while c <= 0x7a
        invariant
            0x61 <= c <= 0x7b,
            symbols@ =~= key_alphabet().subrange(0, 10 + (c - 0x61)),
        decreases 0x7b - c,
    {
        symbols.push(c);
        c = c + 1;
    }
    let mut c: u8 = 0x41;
    while c <= 0x5a
        invariant
            0x41 <= c <= 0x5b,
            symbols@ =~= key_alphabet().subrange(0, 36 + (c - 0x41)),
        decreases 0x5b - c,
    {
        symbols.push(c);
        c = c + 1;
    }
    symbols
}

/// The bounds of the first `j` draws: each picks one of the 62 symbols.
pub open spec fn symbol_bounds(j: nat) -> Seq<nat> {
    Seq::new(j, |_i: int| 62nat)
}

/// The `j`-th symbol (from 0) a generator seeded with `seed` draws.
pub open spec fn drawn_symbol(seed: Seq<u8>, j: nat) -> u8 {
    key_alphabet()[drawn_index(seed, symbol_bounds(j + 1)) as int]
}

/// The `k`-th key (from 0) of the population: `key_size` consecutive draws.
pub open spec fn drawn_key(seed: Seq<u8>, key_size: nat, k: nat) -> Seq<u8> {
    Seq::new(key_size, |b: int| drawn_symbol(seed, (k * key_size + b) as nat))
}

/// The keys of a generated workload: the first `count` keys of the
/// population drawn from `seed`, in drawing order or, with a shuffle seed, in
/// the order that seed fixes for the whole population.
pub open spec fn workload_keys(
    seed: Seq<u8>,
    shuffle: Option<Seq<u8>>,
    key_size: nat,
    population: nat,
    count: nat,
) -> Seq<Seq<u8>> {
    Seq::new(
        count,
        |i: int|
            match shuffle {
                None => drawn_key(seed, key_size, i as nat),
                Some(t) => drawn_key(seed, key_size, shuffle_order(t, population)[i] as nat),
            },
    )
}

/// The keys of `tasks`, in order.
pub open spec fn keys_of(tasks: Seq<Task>) -> Seq<Seq<u8>> {
    Seq::new(tasks.len(), |i: int| tasks[i].spec_key().bytes())
}

/// The keys a command yields from the padded generation seed `seed`.
pub open spec fn command_keys(command: WorkloadCommand, seed: Seq<u8>) -> Seq<Seq<u8>> {
    workload_keys(
        seed,
        padded_option(command.spec_shuffle()),
        command.spec_key_size() as nat,
        command.population() as nat,
        command.spec_count() as nat,
    )
}

/// Draws one key: `key_size` symbols, each chosen independently.
fn draw_key(rng: &mut SeededRng, symbols: &Vec<u8>, key_size: usize) -> (r: Vec<u8>)
    requires
        symbols@ == key_alphabet(),
        old(rng).bounds() == symbol_bounds(old(rng).bounds().len()),
    ensures
        final(rng).seed() == old(rng).seed(),
        final(rng).bounds() == symbol_bounds((old(rng).bounds().len() + key_size) as nat),
        r@ == Seq::new(
            key_size as nat,
            |b: int| drawn_symbol(old(rng).seed(), (old(rng).bounds().len() + b) as nat),
        ),
        forall|b: int| 0 <= b < r@.len() ==> is_key_symbol(#[trigger] r@[b]),
{
    let ghost start = rng.bounds().len();
    let mut key: Vec<u8> = Vec::new();
    let mut i: usize = 0;
    while i < key_size
        invariant
            i <= key_size,
            symbols@ == key_alphabet(),
            rng.seed() == old(rng).seed(),
            start == old(rng).bounds().len(),
            rng.bounds() == symbol_bounds((start + i) as nat),
            key@ == Seq::new(i as nat, |b: int| drawn_symbol(rng.seed(), (start + b) as nat)),
            forall|b: int| 0 <= b < key@.len() ==> is_key_symbol(#[trigger] key@[b]),
        decreases key_size - i,
    {
        let b = rng.choose_byte(symbols.as_slice());
        assert(rng.bounds() =~= symbol_bounds((start + i + 1) as nat));
        key.push(b);
        i = i + 1;
        assert(key@ =~= Seq::new(i as nat, |b: int| drawn_symbol(rng.seed(), (start + b) as nat)));
    }
    key
}

/// `task` is one the command asks for: its kind, with a key of the right
/// size over the key alphabet, and for a put the requested payload size.
pub open spec fn fits_command(task: Task, command: WorkloadCommand) -> bool {
    &&& task.spec_method() == command.spec_method()
    &&& task.spec_key().bytes().len() == command.spec_key_size()
    &&& forall|i: int|
        0 <= i < task.spec_key().bytes().len() ==> is_key_symbol(#[trigger] task.spec_key().bytes()[i])
    &&& command matches WorkloadCommand::Put { value_size, .. } ==> task matches Task::Put { value, .. }
        && value.spec_size() == value_size
}

/// The task of the command's kind for a key, at the default priority.
pub fn make_task(command: &WorkloadCommand, key: Key) -> (r: Task)
    ensures
        r.spec_method() == command.spec_method(),
        *r.spec_key() == key,
        r.spec_priority() == 0,
        command matches WorkloadCommand::Put { value_size, .. } ==> r matches Task::Put { value, .. }
            && value.spec_size() == value_size,
{
    match command {
        WorkloadCommand::Put { value_size, .. } => Task::Put {
            key,
            value: ValueSpec::Random { size: *value_size },
            priority: 0,
        },
        WorkloadCommand::Get { .. } => Task::Get { key, priority: 0 },
        WorkloadCommand::Delete { .. } => Task::Delete { key, priority: 0 },
    }
}

/// Reorders tasks by a generator seeded with `seed`: position `i` receives
/// the task from position `shuffle_order(seed, n)[i]`, a rearrangement fixed
/// by the seed and the number of tasks alone.
pub fn shuffle_workload(tasks: &mut Vec<Task>, seed: [u8; 32])
    ensures
        is_permutation(shuffle_order(seed@, old(tasks)@.len()), old(tasks)@.len()),
        final(tasks)@ == Seq::new(
            old(tasks)@.len(),
            |i: int| old(tasks)@[shuffle_order(seed@, old(tasks)@.len())[i]],
        ),
        final(tasks)@.to_multiset() == old(tasks)@.to_multiset(),
{
    let rng = SeededRng::new(seed);
    rng.shuffle_tasks(tasks);
}

/// Generates the tasks a command asks for. Configuration errors come first,
/// before any key is drawn: a count above the population size, then a seed,
/// then a shuffle seed longer than 32 bytes. The keys are the first `count`
/// of a population drawn from the padded seed (from entropy when there is
/// none), in drawing order or in the order the shuffle seed fixes.
pub fn generate_tasks(command: &WorkloadCommand) -> (r: Result<Vec<Task>, Error>)
    ensures
        command.spec_count() > command.population() ==> r == Err::<Vec<Task>, Error>(
            Error::CountExceedsPopulation {
                count: command.spec_count(),
                population_size: command.population(),
            },
        ),
        command.spec_count() <= command.population() && !seed_fits(command.spec_seed()) ==> r
            == Err::<Vec<Task>, Error>(
            Error::SeedTooLong { len: seed_length(command.spec_seed()) },
        ),
        command.spec_count() <= command.population() && seed_fits(command.spec_seed())
            && !seed_fits(command.spec_shuffle()) ==> r == Err::<Vec<Task>, Error>(
            Error::SeedTooLong { len: seed_length(command.spec_shuffle()) },
        ),
        r is Ok <==> command.spec_count() <= command.population() && seed_fits(command.spec_seed())
            && seed_fits(command.spec_shuffle()),
        r matches Ok(tasks) ==> tasks@.len() == command.spec_count() && forall|i: int|
            0 <= i < tasks@.len() ==> fits_command(#[trigger] tasks@[i], *command),
        r matches Ok(tasks) ==> (padded_option(command.spec_seed()) matches Some(seed) ==> keys_of(
            tasks@,
        ) == command_keys(*command, seed)),
        r matches Ok(tasks) ==> exists|seed: Seq<u8>|
            seed.len() == 32 && keys_of(tasks@) == #[trigger] command_keys(*command, seed),
        r is Ok ==> (padded_option(command.spec_shuffle()) matches Some(t) ==> is_permutation(
            shuffle_order(t, command.population() as nat),
            command.population() as nat,
        )),
{
    let count = command.count();
    let key_size = command.key_size();
    let population_size = match command.population_size() {
        Some(p) => p,
        None => count,
    };
    if count > population_size {
        return Err(Error::CountExceedsPopulation { count, population_size });
    }
    let seed = match command.seed() {
        Some(s) => match pad_seed(s) {
            Ok(padded) => padded,
            Err(e) => return Err(e),
        },
        None => {
            let mut entropy = entropy_rng();
            random_seed(&mut entropy)
        },
    };
    let shuffle_seed = match command.shuffle() {
        Some(s) => match pad_seed(s) {
            Ok(padded) => Some(padded),
            Err(e) => return Err(e),
        },
        None => None,
    };
    let symbols = key_symbols();
    let mut rng = SeededRng::new(seed);
    let mut tasks: Vec<Task> = Vec::new();
    assert(rng.bounds() =~= symbol_bounds((tasks@.len() * key_size) as nat));
    while tasks.len() < population_size
        invariant
            count <= population_size,
            count == command.spec_count(),
            population_size == command.population(),
            key_size == command.spec_key_size(),
            tasks@.len() <= population_size,
            symbols@ == key_alphabet(),
            rng.seed() == seed@,
            rng.bounds() == symbol_bounds((tasks@.len() * key_size) as nat),
            forall|i: int| 0 <= i < tasks@.len() ==> fits_command(#[trigger] tasks@[i], *command),
            forall|k: int|
                0 <= k < tasks@.len() ==> (#[trigger] tasks@[k]).spec_key().bytes() == drawn_key(
                    seed@,
                    key_size as nat,
                    k as nat,
                ),
        decreases population_size - tasks@.len(),
    {
        let ghost k = tasks@.len();
        assert(rng.bounds().len() == k * key_size);
        let bytes = draw_key(&mut rng, &symbols, key_size);
        proof {
            assert((k + 1) * key_size == k * key_size + key_size) by (nonlinear_arith);
            assert(bytes@ =~= drawn_key(seed@, key_size as nat, k as nat));
            assert forall|i: int| 0 <= i < bytes@.len() implies #[trigger] bytes@[i] < 0x80 by {
                assert(is_key_symbol(bytes@[i]));
            }
            lemma_ascii_is_utf8(bytes@);
        }
        let key = match Key::from_utf8(bytes) {
            Ok(k) => k,
            Err(e) => return Err(e),
        };
        let task = make_task(command, key);
        tasks.push(task);
    }
    let ghost population = tasks@;
    match shuffle_seed {
        Some(t) => {
            shuffle_workload(&mut tasks, t);
            assert forall|i: int| 0 <= i < tasks@.len() implies fits_command(
                #[trigger] tasks@[i],
                *command,
            ) && tasks@[i].spec_key().bytes() == drawn_key(
                seed@,
                key_size as nat,
                shuffle_order(t@, population.len())[i] as nat,
            ) by {
                let j = shuffle_order(t@, population.len())[i];
                assert(tasks@[i] == population[j]);
            }
        },
        None => {},
    }
    let ghost before_cut = tasks@;
    tasks.truncate(count);
    proof {
        assert(keys_of(tasks@) =~= command_keys(*command, seed@));
    }
    Ok(tasks)
}

/// The same padded seed, key size, population size, count and shuffle seed
/// give the same key sequence, whatever kind of task is generated.
pub proof fn lemma_same_settings_same_keys(
    first: WorkloadCommand,
    second: WorkloadCommand,
    seed: Seq<u8>,
)
    requires
        padded_option(first.spec_shuffle()) == padded_option(second.spec_shuffle()),
        first.spec_key_size() == second.spec_key_size(),
        first.population() == second.population(),
        first.spec_count() == second.spec_count(),
    ensures
        command_keys(first, seed) == command_keys(second, seed),
{
}

/// A shuffle seed reorders the population by an order that depends on that
/// seed and the population size alone, whatever the generation seed: with
/// count equal to the population size, position `j` of the shuffled keys holds
/// the key at position `shuffle_order(t, n)[j]` of the unshuffled ones.
pub proof fn lemma_shuffle_reorders_population(
    seed: Seq<u8>,
    t: Seq<u8>,
    key_size: nat,
    n: nat,
    j: int,
)
    requires
        is_permutation(shuffle_order(t, n), n),
        0 <= j < n,
    ensures
        workload_keys(seed, Some(t), key_size, n, n)[j] == workload_keys(seed, None, key_size, n, n)[shuffle_order(t, n)[j]],
{
}

} // verus!
