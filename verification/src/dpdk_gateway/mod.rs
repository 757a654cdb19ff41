//! Order entry that reads packets straight from the network card.
//!
//! The calls into the card's driver are made elsewhere. Here it is decided
//! what to call next, what a return code means, and what a packet says.

pub mod eal;
pub mod mempool;
pub mod port;
pub mod rx;
