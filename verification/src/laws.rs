//! Laws of the engine: what holds of every run, whatever the rules, the
//! selection and the disk.
//!
//! Those that speak of the disk are stated over runs against an honest
//! caller, as [`crate::world`] models one.

pub mod idempotence;
pub mod isolation;
pub mod removal;
