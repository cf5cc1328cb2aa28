//! The data shared by every stage: keys, tasks, existence reports and
//! per-task results.

use vstd::prelude::*;
use vstd::utf8::{
    decode_utf8, decode_utf8_encode_utf8, encode_utf8, is_leading_byte_width_1,
    partial_valid_utf8, partial_valid_utf8_extend_ascii_block, valid_utf8,
};

use crate::random::{entropy_rng, fill_random};

verus! {

/// Configuration errors: raised before any generation or execution work.
#[derive(Debug, PartialEq, Eq, Structural)]
pub enum Error {
    /// More tasks were asked for than there are keys in the population.
    CountExceedsPopulation { count: usize, population_size: usize },
    /// A seed longer than the 32 bytes a generator is seeded with.
    SeedTooLong { len: usize },
    /// A key longer than a fixed-width identifier can hold.
    KeyTooLong { len: usize },
    /// Key bytes that are not UTF-8.
    InvalidUtf8,
    /// A size string that names no size, or one too large to hold.
    InvalidSize,
}

/// Relies on `String::from_utf8`: it succeeds exactly on valid UTF-8, and the
/// string then holds the characters those bytes encode.
#[verifier::external_body]
fn string_from_utf8(bytes: Vec<u8>) -> (r: Option<String>)
    ensures
        r is Some <==> valid_utf8(bytes@),
        r matches Some(s) ==> s@ == decode_utf8(bytes@),
{
    String::from_utf8(bytes).ok()
}

/// Bytes below 0x80 form valid UTF-8, one character per byte.
pub proof fn lemma_ascii_is_utf8(bytes: Seq<u8>)
    requires
        forall|i: int| 0 <= i < bytes.len() ==> #[trigger] bytes[i] < 0x80,
    ensures
        valid_utf8(bytes),
{
    assert forall|i: int| 0 <= i < bytes.len() implies #[trigger] is_leading_byte_width_1(
        bytes[i],
    ) by {}
    assert(bytes.subrange(0, 0) =~= Seq::<u8>::empty());
    assert(partial_valid_utf8(bytes, 0));
    partial_valid_utf8_extend_ascii_block(bytes, 0, bytes.len() as int);
    assert(bytes.subrange(0, bytes.len() as int) =~= bytes);
}

/// A key: an opaque identity, written as a string.
#[derive(Debug)]
pub struct Key(String);

impl View for Key {
    type V = Seq<char>;

    closed spec fn view(&self) -> Seq<char> {
        self.0@
    }
}

impl Key {
    /// The bytes that identify the key to a store.
    pub open spec fn bytes(&self) -> Seq<u8> {
        encode_utf8(self@)
    }

    pub fn new(s: String) -> (r: Key)
        ensures
            r@ == s@,
    {
        Key(s)
    }

    /// Fails with `InvalidUtf8` exactly when the bytes are not UTF-8.
    pub fn from_utf8(bytes: Vec<u8>) -> (r: Result<Key, Error>)
        ensures
            r is Ok <==> valid_utf8(bytes@),
            r matches Ok(k) ==> k.bytes() == bytes@ && k@ == decode_utf8(bytes@),
            r matches Err(e) ==> e == Error::InvalidUtf8,
    {
        let ghost b = bytes@;
        match string_from_utf8(bytes) {
            Some(s) => {
                proof {
                    decode_utf8_encode_utf8(b);
                }
                Ok(Key(s))
            },
            None => Err(Error::InvalidUtf8),
        }
    }

    pub fn as_str(&self) -> (r: &str)
        ensures
            r@ == self@,
    {
        self.0.as_str()
    }

    pub fn as_bytes(&self) -> (r: &[u8])
        ensures
            r@ == self.bytes(),
    {
        self.0.as_str().as_bytes()
    }
}

/// How a payload is produced when a task runs.
#[derive(Debug)]
pub enum ValueSpec {
    /// Fresh random bytes of the given size.
    Random { size: usize },
}

impl ValueSpec {
    pub open spec fn spec_size(&self) -> usize {
        match self {
            ValueSpec::Random { size } => *size,
        }
    }

    /// Draws a fresh payload: the bytes differ from run to run, the size does not.
    pub fn generate(&self) -> (r: Vec<u8>)
        ensures
            r@.len() == self.spec_size(),
    {
        let ValueSpec::Random { size } = self;
        let mut value: Vec<u8> = Vec::new();
        let mut i: usize = 0;
        while i < *size
            invariant
                i <= *size,
                value@.len() == i,
            decreases *size - i,
        {
            value.push(0);
            i = i + 1;
        }
        let mut rng = entropy_rng();
        fill_random(&mut rng, &mut value);
        value
    }
}

/// One operation of a workload. The priority (0 unless given) is for
/// backends that schedule by priority; execution order is workload order.
#[derive(Debug)]
pub enum Task {
    Put { key: Key, value: ValueSpec, priority: i64 },
    Get { key: Key, priority: i64 },
    Delete { key: Key, priority: i64 },
}

impl Task {
    pub open spec fn spec_key(&self) -> &Key {
        match self {
            Task::Put { key, .. } => key,
            Task::Get { key, .. } => key,
            Task::Delete { key, .. } => key,
        }
    }

    pub open spec fn spec_priority(&self) -> i64 {
        match self {
            Task::Put { priority, .. } => *priority,
            Task::Get { priority, .. } => *priority,
            Task::Delete { priority, .. } => *priority,
        }
    }

    pub open spec fn spec_method(&self) -> Method {
        match self {
            Task::Put { .. } => Method::Put,
            Task::Get { .. } => Method::Get,
            Task::Delete { .. } => Method::Delete,
        }
    }
}

/// The kind of operation a result reports on.
#[derive(Debug, Clone, Copy, PartialEq, Eq, Structural)]
pub enum Method {
    Put,
    Get,
    Delete,
}

/// What is known of a key's existence before an operation: present, absent,
/// or no claim made.
#[derive(Debug, Clone, Copy, PartialEq, Eq, Structural)]
pub struct Existence(Option<bool>);

impl View for Existence {
    type V = Option<bool>;

    closed spec fn view(&self) -> Option<bool> {
        self.0
    }
}

impl Existence {
    pub fn new(exists: bool) -> (r: Existence)
        ensures
            r@ == Some(exists),
    {
        Existence(Some(exists))
    }

    pub fn unknown() -> (r: Existence)
        ensures
            r@ is None,
    {
        Existence(None)
    }

    pub fn as_option(self) -> (r: Option<bool>)
        ensures
            r == self@,
    {
        self.0
    }
}

/// The record of one executed task. Times are in nanoseconds: `start_time`
/// since the executor was built, `elapsed` for the operation itself.
#[derive(Debug)]
pub struct TaskResult {
    pub seqno: usize,
    pub key: Key,
    pub method: Method,
    pub start_time: u64,
    pub elapsed: u64,
    pub exists: Existence,
    pub error: Option<String>,
}

} // verus!
