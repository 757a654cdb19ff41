//! Domain types shared by every part of the engine.
//!
//! Prices and quantities are plain integers (ticks and lots): there is no
//! rounding on the matching path, so replaying a log gives the same state.

pub mod commands;
pub mod crc32;
pub mod events;
pub mod ids;
pub mod le;
pub mod log_entry;
pub mod order_status;
pub mod price;
pub mod qty;
pub mod side;
pub mod text;
