//! A contention-free matching and risk engine with machine-checked behaviour.
//!
//! Every module states what it does in `requires` / `ensures` contracts over
//! small mathematical models: an order book is two queues of orders in
//! price-time priority, a ring buffer is a bounded sequence, a wire frame is
//! a sequence of bytes.

pub mod core_types;
pub mod order_book;
pub mod ring_buffer;
pub mod account_state;
pub mod risk_engine;
pub mod matching_engine;
pub mod gateway;
pub mod dual_log;
pub mod second_engine;
pub mod metrics;
pub mod logger;
pub mod dpdk_gateway;
