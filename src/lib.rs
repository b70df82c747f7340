//! Minute-granular task scheduling with a per-cycle weight budget.
//!
//! Tasks are bucketed by the minute they are due in a time-slot index,
//! moved into a ready queue as the clock passes their slot, and executed
//! from the front of that queue for as long as the cycle's budget allows.

pub mod hashing;
pub mod laws;
pub mod model;
pub mod pallet;
pub mod task;
pub mod weights;
