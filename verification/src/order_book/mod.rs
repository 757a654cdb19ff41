//! Limit order book for one symbol: price-time priority matching over a
//! ladder of price levels.

pub mod arena;
pub mod book;
pub mod events;
pub mod ladder;
pub mod laws;
pub mod level;
pub mod model;
pub mod naive;
pub mod order;
pub mod promises;
