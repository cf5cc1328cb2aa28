use ekvsb::summary::{summarize, Existence as ExistenceCounts, Latency};
use ekvsb::task::{Existence, Key, Method, TaskResult};

const SECOND: u64 = 1_000_000_000;

fn result(seqno: usize, elapsed: u64, exists: Existence, error: Option<&str>) -> TaskResult {
    TaskResult {
        seqno,
        key: Key::new(format!("k{}", seqno)),
        method: Method::Get,
        start_time: 0,
        elapsed,
        exists,
        error: error.map(|e| e.to_string()),
    }
}

#[test]
fn percentiles_of_one_to_a_hundred_seconds() {
    // Given in reverse, so the statistics must sort first.
    let results: Vec<TaskResult> =
        (1..=100u64).rev().map(|s| result(s as usize, s * SECOND, Existence::new(true), None)).collect();
    let latency = Latency::new(&results);
    assert_eq!(latency.min, SECOND);
    assert_eq!(latency.max, 100 * SECOND);
    // The values of rank floor(n * p): the 50th, 95th and 99th smallest.
    assert_eq!(latency.median, 50 * SECOND);
    assert_eq!(latency.p95, 95 * SECOND);
    assert_eq!(latency.p99, 99 * SECOND);
}

#[test]
fn percentiles_of_ten_values() {
    let results: Vec<TaskResult> =
        [5u64, 3, 9, 1, 7, 2, 8, 4, 10, 6].iter().enumerate().map(|(i, &e)| result(i, e, Existence::unknown(), None)).collect();
    let latency = Latency::new(&results);
    assert_eq!(latency, Latency { min: 1, median: 5, p95: 9, p99: 9, max: 10 });
}

#[test]
fn empty_results_give_zero_statistics() {
    let latency = Latency::new(&[]);
    assert_eq!(latency, Latency { min: 0, median: 0, p95: 0, p99: 0, max: 0 });
    let summary = summarize(&[]);
    assert_eq!(summary.oks, 0);
    assert_eq!(summary.errors, 0);
    assert_eq!(summary.elapsed, 0);
}

#[test]
fn latency_from_sorted_indexes_directly() {
    assert_eq!(
        Latency::from_sorted(&vec![1, 2, 3]),
        Latency { min: 1, median: 1, p95: 2, p99: 2, max: 3 }
    );
    assert_eq!(
        Latency::from_sorted(&vec![4]),
        Latency { min: 4, median: 4, p95: 4, p99: 4, max: 4 }
    );
}

#[test]
fn existence_counts_three_ways() {
    let results = vec![
        result(0, 1, Existence::new(true), None),
        result(1, 1, Existence::new(false), None),
        result(2, 1, Existence::new(false), None),
        result(3, 1, Existence::unknown(), Some("e")),
    ];
    assert_eq!(
        ExistenceCounts::new(&results),
        ExistenceCounts { exists: 1, absents: 2, unknowns: 1 }
    );
}

#[test]
fn summary_counts_and_total() {
    let results = vec![
        result(0, 10, Existence::new(true), None),
        result(1, 20, Existence::unknown(), Some("failed")),
        result(2, u64::MAX, Existence::new(false), None),
    ];
    let summary = summarize(&results);
    assert_eq!(summary.oks, 2);
    assert_eq!(summary.errors, 1);
    assert_eq!(summary.elapsed, 30 + u64::MAX as u128);
    assert_eq!(summary.existence, ExistenceCounts { exists: 1, absents: 1, unknowns: 1 });
    assert_eq!(summary.latency, Latency { min: 10, median: 10, p95: 20, p99: 20, max: u64::MAX });
}
