//! A benchmarking harness for key-value stores: reproducible workload
//! generation, sequential execution against a storage interface, and
//! latency summaries.

pub mod generate;
pub mod kvs;
pub mod random;
pub mod size;
pub mod summary;
pub mod task;
pub mod workload;
