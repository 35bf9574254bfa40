//! Control core of a small LED-face robot: a schema-versioned key-value
//! configuration store over an append-only record log, a single-slot
//! latest-value-wins broadcast mechanism, and the command dispatcher that
//! ties external requests to both under a strict ordering and durability
//! discipline.

pub mod as1115;
pub mod codec;
pub mod dispatch;
pub mod error;
pub mod expression;
pub mod hub;
pub mod log;
pub mod store;

pub use error::Error;
