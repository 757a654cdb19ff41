//! The log of every command, kept twice, and the orders that are still in
//! flight.

pub mod dual_log;
pub mod pending_ring;
