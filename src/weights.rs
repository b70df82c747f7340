//! The weights charged for the scheduler's work.

use vstd::prelude::*;

verus! {

/// Fixed overhead of one scheduling cycle.
pub const CYCLE_BASE_WEIGHT: u64 = 20_000;

/// Fixed overhead of a queue update and of a run over the ready queue.
pub const BASE_WEIGHT: u64 = 10_000;

/// Overhead of draining one minute of the time-slot index.
pub const MINUTE_WEIGHT: u64 = 20_000;

/// Overhead of one step of the executor, besides its action.
pub const ITERATION_WEIGHT: u64 = 10_000;

/// Cost of a notify action.
pub const NOTIFY_WEIGHT: u64 = 10_000;

/// Cost of skipping an identifier that names no task.
pub const NOT_FOUND_WEIGHT: u64 = 10_000;

/// Worst-case cost of one step of the executor.
pub const MAX_ITERATION_WEIGHT: u64 = 20_000;

} // verus!
