//! Metrics of all matching shards together.

pub mod aggregator;
pub mod prometheus;
