//! Workloads and their sequential execution against a store.

use std::time::Instant;
use vstd::prelude::*;

use crate::kvs::KeyValueStore;
use crate::task::{Existence, Key, Method, Task, TaskResult};

verus! {

#[verifier::external_type_specification]
#[verifier::external_body]
pub struct ExInstant(Instant);

/// Relies on `Instant::now`: a reading of the monotonic clock.
#[verifier::external_body]
fn clock_now() -> Instant {
    Instant::now()
}

/// A monotonic clock started at a fixed instant, with the last reading taken.
pub struct Stopwatch {
    start: Instant,
    last: Ghost<nat>,
}

impl Stopwatch {
    /// The last reading taken, in nanoseconds since the start.
    pub closed spec fn last_reading(&self) -> nat {
        self.last@
    }

    pub fn start() -> (r: Stopwatch)
        ensures
            r.last_reading() == 0,
    {
        Stopwatch { start: clock_now(), last: Ghost(0) }
    }

    /// Relies on `Instant::elapsed`: the time since the start, which the
    /// monotonic clock never lets decrease (saturating at `u64::MAX`).
    #[verifier::external_body]
    pub fn read(&mut self) -> (r: u64)
        ensures
            old(self).last_reading() <= r,
            final(self).last_reading() == r,
    {
        u64::try_from(self.start.elapsed().as_nanos()).unwrap_or(u64::MAX)
    }
}

/// One call the executor made on its store: the method, the key's bytes,
/// the payload's length (0 for get and delete), and whether the call failed.
pub type StoreCall = (Method, Seq<u8>, nat, bool);

/// `call` is the store call that runs `task`.
pub open spec fn call_runs(call: StoreCall, task: Task) -> bool {
    &&& call.0 == task.spec_method()
    &&& call.1 == task.spec_key().bytes()
    &&& call.2 == match task {
        Task::Put { value, .. } => value.spec_size() as nat,
        _ => 0nat,
    }
}

/// An ordered sequence of tasks; the order is the execution order.
#[derive(Debug)]
pub struct Workload(Vec<Task>);

impl View for Workload {
    type V = Seq<Task>;

    closed spec fn view(&self) -> Seq<Task> {
        self.0@
    }
}

impl Workload {
    pub fn new(tasks: Vec<Task>) -> (r: Workload)
        ensures
            r@ == tasks@,
    {
        Workload(tasks)
    }

    pub fn len(&self) -> (r: usize)
        ensures
            r == self@.len(),
    {
        self.0.len()
    }

    pub fn into_tasks(self) -> (r: Vec<Task>)
        ensures
            r@ == self@,
    {
        self.0
    }
}

/// What a store reported for one operation: a completed call with what it
/// knew of the key's prior existence, or a failure with its message.
pub enum Outcome {
    Done(Existence),
    Failed(String),
}

/// A `get` always knows whether the key was there: its outcome never
/// leaves existence unknown.
pub open spec fn outcome_fits(method: Method, outcome: Outcome) -> bool {
    method == Method::Get ==> (outcome matches Outcome::Done(e) ==> e@ is Some)
}

/// The existence a result reports for an outcome.
pub open spec fn reported_existence(outcome: Outcome) -> Option<bool> {
    match outcome {
        Outcome::Done(e) => e@,
        Outcome::Failed(_) => None,
    }
}

/// The error a result carries for an outcome.
pub open spec fn reported_error(outcome: Outcome) -> Option<String> {
    match outcome {
        Outcome::Done(_) => None,
        Outcome::Failed(message) => Some(message),
    }
}

/// `r` is the result of running task `task` as the `seqno`-th operation with
/// outcome `outcome`.
pub open spec fn is_result_of(r: TaskResult, seqno: int, task: Task, outcome: Outcome) -> bool {
    &&& r.seqno == seqno
    &&& r.key@ == task.spec_key()@
    &&& r.method == task.spec_method()
    &&& r.exists@ == reported_existence(outcome)
    &&& r.error == reported_error(outcome)
}

/// `r` is the result of running `task` as the `seqno`-th operation, whatever
/// the store answered.
pub open spec fn emitted_for(r: TaskResult, seqno: int, task: Task) -> bool {
    exists|outcome: Outcome|
        outcome_fits(task.spec_method(), outcome) && #[trigger] is_result_of(
            r,
            seqno,
            task,
            outcome,
        )
}

/// The keys a store holds after `task` runs on one holding `keys`.
pub open spec fn keys_after(keys: Set<Seq<u8>>, task: Task) -> Set<Seq<u8>> {
    match task {
        Task::Put { key, .. } => keys.insert(key.bytes()),
        Task::Get { .. } => keys,
        Task::Delete { key, .. } => keys.remove(key.bytes()),
    }
}

/// The keys a store holds before the `i`-th of `tasks` runs, when it held
/// `keys` before the first.
pub open spec fn keys_before(keys: Set<Seq<u8>>, tasks: Seq<Task>, i: nat) -> Set<Seq<u8>>
    decreases i,
{
    if i == 0 {
        keys
    } else {
        keys_after(keys_before(keys, tasks, (i - 1) as nat), tasks[i - 1])
    }
}

/// Builds the result of one operation from the store's outcome.
pub fn record(
    seqno: usize,
    key: Key,
    method: Method,
    start_time: u64,
    elapsed: u64,
    outcome: Outcome,
) -> (r: TaskResult)
    ensures
        r.seqno == seqno,
        r.key == key,
        r.method == method,
        r.start_time == start_time,
        r.elapsed == elapsed,
        r.exists@ == reported_existence(outcome),
        r.error == reported_error(outcome),
{
    match outcome {
        Outcome::Done(exists) => TaskResult {
            seqno,
            key,
            method,
            start_time,
            elapsed,
            exists,
            error: None,
        },
        Outcome::Failed(message) => TaskResult {
            seqno,
            key,
            method,
            start_time,
            elapsed,
            exists: Existence::unknown(),
            error: Some(message),
        },
    }
}

/// Replays a workload against a store, one task at a time, yielding one
/// result per task.
pub struct WorkloadExecutor<T> {
    kvs: T,
    /// The tasks still to run, the next one last.
    pending: Vec<Task>,
    clock: Stopwatch,
    seqno: usize,
    /// The store calls made so far, in order.
    calls: Ghost<Seq<StoreCall>>,
}

impl<T: KeyValueStore> WorkloadExecutor<T> {
    /// The tasks still to run, in order.
    pub closed spec fn remaining(&self) -> Seq<Task> {
        Seq::new(self.pending@.len(), |i: int| self.pending@[self.pending@.len() - 1 - i])
    }

    /// The sequence number the next result carries.
    pub closed spec fn next_seqno(&self) -> nat {
        self.seqno as nat
    }

    /// The store calls made so far, in order.
    pub closed spec fn store_calls(&self) -> Seq<StoreCall> {
        self.calls@
    }

    /// The executor's last clock reading, in nanoseconds since it was built.
    pub closed spec fn clock_reading(&self) -> nat {
        self.clock.last_reading()
    }

    /// The store the tasks run against.
    pub closed spec fn spec_store(&self) -> T {
        self.kvs
    }

    pub closed spec fn wf(&self) -> bool {
        self.seqno + self.pending@.len() <= usize::MAX
    }

    pub fn new(kvs: T, workload: Workload) -> (r: Self)
        ensures
            r.wf(),
            r.remaining() == workload@,
            r.next_seqno() == 0,
            r.spec_store() == kvs,
            r.store_calls() == Seq::<StoreCall>::empty(),
            r.clock_reading() == 0,
    {
        let mut tasks = workload.into_tasks();
        let ghost all = tasks@;
        let mut pending: Vec<Task> = Vec::new();
        while tasks.len() > 0
            invariant
                tasks@ == all.subrange(0, tasks@.len() as int),
                tasks@.len() + pending@.len() == all.len(),
                forall|i: int|
                    0 <= i < pending@.len() ==> #[trigger] pending@[i] == all[all.len() - 1 - i],
            decreases tasks@.len(),
        {
            let task = tasks.pop().unwrap();
            pending.push(task);
        }
        // Reading the length bounds it by `usize::MAX`, which `wf` needs.
        let _total = pending.len();
        let r = WorkloadExecutor {
            kvs,
            pending,
            clock: Stopwatch::start(),
            seqno: 0,
            calls: Ghost(Seq::empty()),
        };
        assert(r.remaining() =~= all);
        r
    }

    pub fn store(&self) -> (r: &T)
        ensures
            *r == self.spec_store(),
    {
        &self.kvs
    }

    /// Runs the next task and returns its result, or `None` once every task
    /// has run.
    pub fn next(&mut self) -> (r: Option<TaskResult>)
        requires
            old(self).wf(),
        ensures
            final(self).wf(),
            old(self).remaining().len() == 0 ==> r is None && final(self).remaining() == old(
                self,
            ).remaining() && final(self).next_seqno() == old(self).next_seqno(),
            old(self).remaining().len() > 0 ==> (r matches Some(res) && {
                &&& emitted_for(res, old(self).next_seqno() as int, old(self).remaining()[0])
                &&& final(self).remaining() == old(self).remaining().drop_first()
                &&& final(self).next_seqno() == old(self).next_seqno() + 1
                &&& old(self).clock_reading() <= res.start_time
                &&& res.start_time + res.elapsed == final(self).clock_reading()
                &&& final(self).store_calls().len() == old(self).store_calls().len() + 1
                &&& final(self).store_calls().drop_last() == old(self).store_calls()
                &&& call_runs(final(self).store_calls().last(), old(self).remaining()[0])
                &&& (res.error is Some <==> final(self).store_calls().last().3)
            }),
            old(self).remaining().len() == 0 ==> final(self).spec_store() == old(self).spec_store()
                && final(self).store_calls() == old(self).store_calls() && final(self).clock_reading()
                == old(self).clock_reading(),
            old(self).spec_store().exact_contents() matches Some(m) ==> (old(self).remaining().len()
                > 0 ==> {
                &&& r matches Some(res) && res.error is None && res.exists@ == Some(
                    m.dom().contains(old(self).remaining()[0].spec_key().bytes()),
                )
                &&& final(self).spec_store().exact_contents() matches Some(after) && after.dom()
                    == keys_after(m.dom(), old(self).remaining()[0])
            }),
    {
        if self.pending.len() == 0 {
            return None;
        }
        let ghost before = self.remaining();
        let task = self.pending.pop().unwrap();
        assert(self.remaining() =~= before.drop_first());
        let seqno = self.seqno;
        self.seqno = self.seqno + 1;
        let ghost t = task;
        let result = match task {
            Task::Put { key, value, .. } => {
                let start = self.clock.read();
                let payload = value.generate();
                let answer = self.kvs.put(key.as_bytes(), payload.as_slice());
                self.calls = Ghost(self.calls@.push((Method::Put, key.bytes(), payload@.len() as nat, answer is Err)));
                let end = self.clock.read();
                let outcome = match answer {
                    Ok(e) => Outcome::Done(e),
                    Err(message) => Outcome::Failed(message),
                };
                let ghost o = outcome;
                let r = record(seqno, key, Method::Put, start, end - start, outcome);
                assert(is_result_of(r, seqno as int, t, o));
                r
            },
            Task::Get { key, .. } => {
                let start = self.clock.read();
                let answer = self.kvs.get(key.as_bytes());
                self.calls = Ghost(self.calls@.push((Method::Get, key.bytes(), 0nat, answer is Err)));
                let end = self.clock.read();
                let outcome = match answer {
                    Ok(v) => Outcome::Done(Existence::new(v.is_some())),
                    Err(message) => Outcome::Failed(message),
                };
                let ghost o = outcome;
                let r = record(seqno, key, Method::Get, start, end - start, outcome);
                assert(is_result_of(r, seqno as int, t, o));
                r
            },
            Task::Delete { key, .. } => {
                let start = self.clock.read();
                let answer = self.kvs.delete(key.as_bytes());
                self.calls = Ghost(self.calls@.push((Method::Delete, key.bytes(), 0nat, answer is Err)));
                let end = self.clock.read();
                let outcome = match answer {
                    Ok(e) => Outcome::Done(e),
                    Err(message) => Outcome::Failed(message),
                };
                let ghost o = outcome;
                let r = record(
                    seqno,
                    key,
                    Method::Delete,
                    start,
                    end - start,
                    outcome,
                );
                assert(is_result_of(r, seqno as int, t, o));
                r
            },
        };
        Some(result)
    }

    /// Runs every remaining task, in order; the results carry consecutive
    /// sequence numbers and match the tasks one to one, failures included.
    #[verifier::rlimit(100)]
    pub fn run_to_end(&mut self) -> (r: Vec<TaskResult>)
        requires
            old(self).wf(),
        ensures
            final(self).wf(),
            final(self).remaining().len() == 0,
            final(self).next_seqno() == old(self).next_seqno() + old(self).remaining().len(),
            r@.len() == old(self).remaining().len(),
            forall|i: int|
                0 <= i < r@.len() ==> emitted_for(
                    #[trigger] r@[i],
                    old(self).next_seqno() + i,
                    old(self).remaining()[i],
                ),
            final(self).store_calls().len() == old(self).store_calls().len() + r@.len(),
            final(self).store_calls().subrange(0, old(self).store_calls().len() as int) == old(
                self,
            ).store_calls(),
            forall|i: int|
                0 <= i < r@.len() ==> call_runs(
                    final(self).store_calls()[old(self).store_calls().len() + i],
                    old(self).remaining()[i],
                ) && ((#[trigger] r@[i]).error is Some <==> final(self).store_calls()[old(
                    self,
                ).store_calls().len() + i].3),
            forall|i: int| 0 <= i < r@.len() ==> old(self).clock_reading() <= (#[trigger] r@[i]).start_time,
            forall|i: int|
                0 <= i < r@.len() - 1 ==> (#[trigger] r@[i]).start_time + r@[i].elapsed <= r@[i
                    + 1].start_time,
            old(self).spec_store().exact_contents() matches Some(m) ==> {
                &&& forall|i: int|
                    0 <= i < r@.len() ==> (#[trigger] r@[i]).error is None && r@[i].exists@ == Some(
                        keys_before(m.dom(), old(self).remaining(), i as nat).contains(
                            old(self).remaining()[i].spec_key().bytes(),
                        ),
                    )
                &&& final(self).spec_store().exact_contents() matches Some(after) && after.dom()
                    == keys_before(m.dom(), old(self).remaining(), old(self).remaining().len())
            },
    {
        let ghost all = self.remaining();
        let ghost first = self.next_seqno();
        let ghost initial = self.spec_store().exact_contents();
        let ghost calls0 = self.store_calls();
        let ghost clock0 = self.clock_reading();
        let mut results: Vec<TaskResult> = Vec::new();
        while self.pending.len() > 0
            invariant
                self.wf(),
                results@.len() <= all.len(),
                self.remaining() == all.subrange(results@.len() as int, all.len() as int),
                self.next_seqno() == first + results@.len(),
                self.store_calls().len() == calls0.len() + results@.len(),
                self.store_calls().subrange(0, calls0.len() as int) == calls0,
                forall|i: int|
                    0 <= i < results@.len() ==> ran_as(
                        #[trigger] results@[i],
                        first + i,
                        all[i],
                        self.store_calls()[calls0.len() + i],
                    ),
                forall|i: int| 0 <= i < results@.len() ==> clock0 <= (#[trigger] results@[i]).start_time,
                forall|i: int|
                    0 <= i < results@.len() - 1 ==> (#[trigger] results@[i]).start_time
                        + results@[i].elapsed <= results@[i + 1].start_time,
                results@.len() > 0 ==> results@.last().start_time + results@.last().elapsed
                    == self.clock_reading(),
                clock0 <= self.clock_reading(),
                initial matches Some(m) ==> {
                    &&& forall|i: int|
                        0 <= i < results@.len() ==> exact_answer(
                            #[trigger] results@[i],
                            m.dom(),
                            all,
                            i as nat,
                        )
                    &&& self.spec_store().exact_contents() matches Some(now) && now.dom()
                        == keys_before(m.dom(), all, results@.len() as nat)
                },
            decreases self.pending@.len(),
        {
            let ghost k = results@.len();
            let ghost calls_before = self.store_calls();
            let ghost results_before = results@;
            assert(self.remaining().len() == self.pending@.len());
            assert(all[k as int] == all.subrange(k as int, all.len() as int)[0]);
            let res = self.next().unwrap();
            results.push(res);
            proof {
                assert(self.remaining() =~= all.subrange(results@.len() as int, all.len() as int));
                assert forall|j: int| 0 <= j < calls_before.len() implies self.store_calls()[j]
                    == calls_before[j] by {
                    assert(self.store_calls().drop_last()[j] == calls_before[j]);
                }
                assert(self.store_calls().subrange(0, calls0.len() as int) =~= calls0);
                assert forall|i: int| 0 <= i < results@.len() implies ran_as(
                    #[trigger] results@[i],
                    first + i,
                    all[i],
                    self.store_calls()[calls0.len() + i],
                ) by {
                    if i < k {
                        assert(results@[i] == results_before[i]);
                    }
                }
                assert forall|i: int| 0 <= i < results@.len() - 1 implies (
                #[trigger] results@[i]).start_time + results@[i].elapsed <= results@[i
                    + 1].start_time by {
                    if i + 1 < k {
                        assert(results@[i] == results_before[i]);
                        assert(results@[i + 1] == results_before[i + 1]);
                    }
                }
                assert forall|i: int| 0 <= i < results@.len() implies clock0 <= (
                #[trigger] results@[i]).start_time by {
                    if i < k {
                        assert(results@[i] == results_before[i]);
                    }
                }
                if initial is Some {
                    let m = initial->0;
                    assert forall|i: int| 0 <= i < results@.len() implies exact_answer(
                        #[trigger] results@[i],
                        m.dom(),
                        all,
                        i as nat,
                    ) by {
                        if i < k {
                            assert(results@[i] == results_before[i]);
                        }
                    }
                }
            }
        }
        assert(self.remaining().len() == 0);
        assert forall|i: int| 0 <= i < results@.len() implies emitted_for(
            #[trigger] results@[i],
            first + i,
            all[i],
        ) by {
            assert(ran_as(results@[i], first + i, all[i], self.store_calls()[calls0.len() + i]));
        }
        results
    }
}

/// `r`, the result of the `i`-th of `tasks` on a store that held `keys`
/// before the first, is what an exact store answers: no error, and whether
/// the key was there.
pub open spec fn exact_answer(r: TaskResult, keys: Set<Seq<u8>>, tasks: Seq<Task>, i: nat) -> bool {
    r.error is None && r.exists@ == Some(
        keys_before(keys, tasks, i).contains(tasks[i as int].spec_key().bytes()),
    )
}

/// `r` is the result of running `task` as the `seqno`-th operation, through
/// the store call `call`, which failed exactly when `r` carries an error.
pub open spec fn ran_as(r: TaskResult, seqno: int, task: Task, call: StoreCall) -> bool {
    &&& emitted_for(r, seqno, task)
    &&& call_runs(call, task)
    &&& (r.error is Some <==> call.3)
}

/// The number of results that carry an error.
pub open spec fn error_count(results: Seq<TaskResult>) -> nat
    decreases results.len(),
{
    if results.len() == 0 {
        0
    } else {
        error_count(results.drop_last()) + if results.last().error is Some {
            1nat
        } else {
            0nat
        }
    }
}

/// The number of store calls that failed.
pub open spec fn failed_call_count(calls: Seq<StoreCall>) -> nat
    decreases calls.len(),
{
    if calls.len() == 0 {
        0
    } else {
        failed_call_count(calls.drop_last()) + if calls.last().3 {
            1nat
        } else {
            0nat
        }
    }
}

/// Failures are isolated: when each result carries an error exactly when its
/// own store call failed, as `run_to_end` ensures, a run has as many errored
/// results as failed calls; one failed call among ten gives ten results, one
/// of them with an error.
pub proof fn lemma_failures_isolated(results: Seq<TaskResult>, calls: Seq<StoreCall>)
    requires
        results.len() == calls.len(),
        forall|i: int| 0 <= i < results.len() ==> (#[trigger] results[i].error is Some <==> calls[i].3),
    ensures
        error_count(results) == failed_call_count(calls),
    decreases results.len(),
{
    if results.len() > 0 {
        let n = results.len() - 1;
        assert(results[n].error is Some <==> calls[n].3);
        assert forall|i: int| 0 <= i < n implies (#[trigger] results.drop_last()[i].error is Some
            <==> calls.drop_last()[i].3) by {
            assert(results.drop_last()[i] == results[i]);
        }
        lemma_failures_isolated(results.drop_last(), calls.drop_last());
    }
}

/// On a store that reports existence exactly, a key that was not there at
/// the start and that no earlier task puts is absent before every task:
/// by the contract of `run_to_end`, a get of it reports the key absent,
/// without error.
pub proof fn lemma_never_put_key_is_absent(
    keys: Set<Seq<u8>>,
    tasks: Seq<Task>,
    key: Seq<u8>,
    i: nat,
)
    requires
        i <= tasks.len(),
        !keys.contains(key),
        forall|j: int|
            0 <= j < i ==> (#[trigger] tasks[j] is Put ==> tasks[j].spec_key().bytes() != key),
    ensures
        !keys_before(keys, tasks, i).contains(key),
    decreases i,
{
    if i > 0 {
        lemma_never_put_key_is_absent(keys, tasks, key, (i - 1) as nat);
        let t = tasks[i - 1];
        assert(t is Put ==> t.spec_key().bytes() != key);
    }
}

} // verus!
