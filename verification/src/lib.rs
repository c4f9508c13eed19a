//! Process table maintenance and ranking engine.
//!
//! Converts raw, unordered system snapshots into a stable in-memory
//! table, applies a user-selected, toggleable column sort
//! deterministically across refreshes, and mediates termination
//! requests against that table. The host supplies the snapshots and
//! performs the actual OS calls; this crate owns the logic and its
//! invariants.

pub mod record;
pub mod ranking;
pub mod order;
pub mod table;
