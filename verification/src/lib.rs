//! A small, verified schema-migration engine.
//!
//! The library discovers candidate migration identifiers, reconciles them
//! against the set of identifiers already applied, and drives the ordered,
//! at-most-once application of the remainder. All decisions are made here,
//! over plain values; reading the migration directory and talking to the
//! database are left to a thin unverified driver.

pub mod discovery;
pub mod engine;
pub mod laws;
pub mod order;
pub mod reconcile;
