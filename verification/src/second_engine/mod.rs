//! The second engine: workers that take over orders which the primary engine
//! did not process in time.

pub mod books;
pub mod engine;
pub mod laws;
