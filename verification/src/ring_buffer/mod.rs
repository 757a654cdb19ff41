//! Bounded queues between the parts of the engine.
//!
//! Both kinds keep their items in a ring of slots that is addressed by ever
//! increasing cursors. The capacity is a power of two, so that a cursor
//! becomes a slot by masking its low bits.

pub mod cache_pad;
pub mod cursor;
pub mod spmc;
pub mod spsc;
