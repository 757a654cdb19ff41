//! The matching engine of one shard: risk checks, matching, and what it
//! publishes and counts.

pub mod affinity;
pub mod engine;
pub mod mapper;
pub mod metrics;
pub mod risk_check;
pub mod laws;
