//! Positions, margin and liquidation.

pub mod config;
pub mod fixed;
pub mod laws;
pub mod position;
pub mod shard;
pub mod tier0;
