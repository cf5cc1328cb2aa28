//! Reducing a run's results to counts, a total cost and latency order
//! statistics.

use vstd::arithmetic::div_mod::{lemma_div_multiples_vanish_fancy, lemma_fundamental_div_mod};
use vstd::prelude::*;

use crate::task::TaskResult;
use crate::workload::error_count;

verus! {

/// Relies on `slice::sort_unstable`: the slice ends in ascending order,
/// holding the same elements.
#[verifier::external_body]
fn sort_ascending(v: &mut Vec<u64>)
    ensures
        is_ascending(final(v)@),
        final(v)@.to_multiset() == old(v)@.to_multiset(),
{
    v.sort_unstable()
}

pub open spec fn is_ascending(s: Seq<u64>) -> bool {
    forall|i: int, j: int| 0 <= i <= j < s.len() ==> s[i] <= s[j]
}

/// The elapsed times of the results, in order.
pub open spec fn elapsed_times(results: Seq<TaskResult>) -> Seq<u64> {
    Seq::new(results.len(), |i: int| results[i].elapsed)
}

/// How many results report the given existence.
pub open spec fn existence_count(results: Seq<TaskResult>, value: Option<bool>) -> nat
    decreases results.len(),
{
    if results.len() == 0 {
        0
    } else {
        existence_count(results.drop_last(), value) + if results.last().exists@ == value {
            1nat
        } else {
            0nat
        }
    }
}

/// The sum of the elapsed times of the results.
pub open spec fn total_elapsed(results: Seq<TaskResult>) -> nat
    decreases results.len(),
{
    if results.len() == 0 {
        0
    } else {
        total_elapsed(results.drop_last()) + results.last().elapsed as nat
    }
}

/// How many results report a key as present, absent, or unknown.
#[derive(Debug, Clone, Copy, PartialEq, Eq, Structural)]
pub struct Existence {
    pub exists: u64,
    pub absents: u64,
    pub unknowns: u64,
}

impl Existence {
    pub fn new(results: &[TaskResult]) -> (r: Existence)
        ensures
            r.exists == existence_count(results@, Some(true)),
            r.absents == existence_count(results@, Some(false)),
            r.unknowns == existence_count(results@, None),
    {
        let mut exists: u64 = 0;
        let mut absents: u64 = 0;
        let mut unknowns: u64 = 0;
        let mut i: usize = 0;
        while i < results.len()
            invariant
                i <= results@.len(),
                exists == existence_count(results@.subrange(0, i as int), Some(true)),
                absents == existence_count(results@.subrange(0, i as int), Some(false)),
                unknowns == existence_count(results@.subrange(0, i as int), None),
                exists + absents + unknowns == i,
            decreases results@.len() - i,
        {
            proof {
                let prefix = results@.subrange(0, i as int);
                assert(results@.subrange(0, i + 1).drop_last() =~= prefix);
            }
            match results[i].exists.as_option() {
                None => unknowns = unknowns + 1,
                Some(false) => absents = absents + 1,
                Some(true) => exists = exists + 1,
            }
            i = i + 1;
        }
        assert(results@.subrange(0, i as int) =~= results@);
        Existence { exists, absents, unknowns }
    }
}

/// Latency order statistics, in nanoseconds.
#[derive(Debug, Clone, Copy, PartialEq, Eq, Structural)]
pub struct Latency {
    pub min: u64,
    pub median: u64,
    pub p95: u64,
    pub p99: u64,
    pub max: u64,
}

/// The nearest rank, counted from 1, for a percentage of `n` values:
/// `floor(n * percent / 100)`.
pub open spec fn rank(n: nat, percent: nat) -> int {
    (n * percent / 100) as int
}

/// The position, counted from 0, of the value of that rank; rank 0 (too few
/// values for the percentage) reads the smallest.
pub open spec fn rank_index(n: nat, percent: nat) -> int {
    if rank(n, percent) >= 1 {
        rank(n, percent) - 1
    } else {
        0
    }
}

/// The statistics of an ascending sequence, by direct indexing: the median,
/// p95 and p99 are the values of rank `floor(n * p)`, so for the values
/// 1..100 they are 50, 95 and 99. All zero when it is empty.
pub open spec fn latency_of_sorted(s: Seq<u64>) -> Latency {
    if s.len() == 0 {
        Latency { min: 0, median: 0, p95: 0, p99: 0, max: 0 }
    } else {
        Latency {
            min: s[0],
            median: s[rank_index(s.len(), 50)],
            p95: s[rank_index(s.len(), 95)],
            p99: s[rank_index(s.len(), 99)],
            max: s[s.len() - 1],
        }
    }
}

fn nearest_rank_index(n: usize, percent: usize) -> (r: usize)
    requires
        percent <= 100,
    ensures
        r == rank_index(n as nat, percent as nat),
{
    let q = n / 100;
    let m = n % 100;
    proof {
        let big = q * percent;
        let small = m * percent;
        lemma_fundamental_div_mod(n as int, 100);
        lemma_fundamental_div_mod(small as int, 100);
        assert(n * percent == 100 * big + small) by (nonlinear_arith)
            requires
                n == 100 * q + m,
                big == q * percent,
                small == m * percent,
        ;
        assert(100 * (big + small / 100) + small % 100 == 100 * big + small);
        lemma_div_multiples_vanish_fancy(big + small / 100, small % 100, 100);
        assert(q * percent <= n) by (nonlinear_arith)
            requires
                q == n / 100,
                percent <= 100,
                n >= 0,
        ;
        assert(m * percent <= 9900) by (nonlinear_arith)
            requires
                m < 100,
                percent <= 100,
        ;
        assert(n * percent / 100 <= n) by (nonlinear_arith)
            requires
                percent <= 100,
                n >= 0,
        ;
        assert(big + small / 100 == n * percent / 100);
    }
    let rank = q * percent + m * percent / 100;
    if rank >= 1 {
        rank - 1
    } else {
        0
    }
}

impl Latency {
    /// The statistics of elapsed times already in ascending order.
    pub fn from_sorted(sorted: &Vec<u64>) -> (r: Latency)
        requires
            is_ascending(sorted@),
        ensures
            r == latency_of_sorted(sorted@),
    {
        let n = sorted.len();
        if n == 0 {
            return Latency { min: 0, median: 0, p95: 0, p99: 0, max: 0 };
        }
        let median = nearest_rank_index(n, 50);
        let p95 = nearest_rank_index(n, 95);
        let p99 = nearest_rank_index(n, 99);
        assert(n as nat * 50 / 100 < n) by (nonlinear_arith) requires n > 0;
        assert(n as nat * 95 / 100 < n) by (nonlinear_arith) requires n > 0;
        assert(n as nat * 99 / 100 < n) by (nonlinear_arith) requires n > 0;
        Latency {
            min: sorted[0],
            median: sorted[median],
            p95: sorted[p95],
            p99: sorted[p99],
            max: sorted[n - 1],
        }
    }

    /// The statistics of the results' elapsed times: those of the ascending
    /// arrangement of the times, which is unique.
    pub fn new(results: &[TaskResult]) -> (r: Latency)
        ensures
            exists|s: Seq<u64>|
                is_ascending(s) && s.to_multiset() == elapsed_times(results@).to_multiset() && r
                    == latency_of_sorted(s),
    {
        let mut times: Vec<u64> = Vec::new();
        let mut i: usize = 0;
        while i < results.len()
            invariant
                i <= results@.len(),
                times@ == elapsed_times(results@).subrange(0, i as int),
            decreases results@.len() - i,
        {
            times.push(results[i].elapsed);
            i = i + 1;
            assert(times@ =~= elapsed_times(results@).subrange(0, i as int));
        }
        assert(times@ =~= elapsed_times(results@));
        sort_ascending(&mut times);
        let r = Latency::from_sorted(&times);
        assert(is_ascending(times@) && times@.to_multiset() == elapsed_times(results@).to_multiset()
            && r == latency_of_sorted(times@));
        r
    }
}

/// A run's summary: outcome counts, total elapsed nanoseconds (the sum of
/// per-task costs), existence counts and latency statistics.
#[derive(Debug)]
pub struct Summary {
    pub oks: usize,
    pub errors: usize,
    pub existence: Existence,
    pub elapsed: u128,
    pub latency: Latency,
}

/// The number of results that carry an error, and the total of their
/// elapsed times.
fn errors_and_total(results: &[TaskResult]) -> (r: (usize, u128))
    ensures
        r.0 == error_count(results@),
        r.0 <= results@.len(),
        r.1 == total_elapsed(results@),
{
    let mut errors: usize = 0;
    let mut total: u128 = 0;
    let mut i: usize = 0;
    while i < results.len()
        invariant
            i <= results@.len(),
            errors <= i,
            errors == error_count(results@.subrange(0, i as int)),
            total == total_elapsed(results@.subrange(0, i as int)),
            total <= i * 0xffff_ffff_ffff_ffffnat,
        decreases results@.len() - i,
    {
        proof {
            let prefix = results@.subrange(0, i as int);
            assert(results@.subrange(0, i + 1).drop_last() =~= prefix);
            assert((i + 1) * 0xffff_ffff_ffff_ffffnat == i * 0xffff_ffff_ffff_ffffnat
                + 0xffff_ffff_ffff_ffffnat) by (nonlinear_arith);
            assert(i * 0xffff_ffff_ffff_ffffnat <= 0xffff_ffff_ffff_ffffnat
                * 0xffff_ffff_ffff_ffffnat) by (nonlinear_arith)
                requires
                    i <= 0xffff_ffff_ffff_ffffnat,
            ;
        }
        if results[i].error.is_some() {
            errors = errors + 1;
        }
        total = total + results[i].elapsed as u128;
        i = i + 1;
    }
    assert(results@.subrange(0, i as int) =~= results@);
    (errors, total)
}

/// Summarizes a complete run.
pub fn summarize(results: &[TaskResult]) -> (r: Summary)
    ensures
        r.errors == error_count(results@),
        r.oks == results@.len() - error_count(results@),
        r.elapsed == total_elapsed(results@),
        r.existence.exists == existence_count(results@, Some(true)),
        r.existence.absents == existence_count(results@, Some(false)),
        r.existence.unknowns == existence_count(results@, None),
        exists|s: Seq<u64>|
            is_ascending(s) && s.to_multiset() == elapsed_times(results@).to_multiset()
                && r.latency == latency_of_sorted(s),
{
    let (errors, elapsed) = errors_and_total(results);
    Summary {
        oks: results.len() - errors,
        errors,
        existence: Existence::new(results),
        elapsed,
        latency: Latency::new(results),
    }
}

} // verus!
