//! The client gateway: framing, sessions and market data.

pub mod buffer;
pub mod codec;
pub mod connection;
pub mod market_data;
pub mod server;
pub mod session;
pub mod wire;
