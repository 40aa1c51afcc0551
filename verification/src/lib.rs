//! Admission-controlled batch execution for contract workloads.
//!
//! The crate verifies the core of a bulk job driver: a latency registry
//! that accumulates per-job timings, a controller that tunes the maximum
//! number of in-flight jobs from the trend of recent average latencies,
//! and the per-batch state machine that an asynchronous driver steps.

use vstd::prelude::*;

pub mod clock;
pub mod controller;
pub mod executor;
pub mod registry;

verus! {

/// Maximum number of entries kept in the trailing latency window.
pub const WINDOW_MAX: usize = 10;

/// In-flight cap that every batch starts from.
pub const INITIAL_LIMIT: u32 = 2;

/// Floor below which the controller never lowers the in-flight cap.
pub const MIN_LIMIT: u32 = 1;

/// Latency difference (milliseconds) under which two window entries are
/// treated as equally fast; only larger gaps move the controller.
pub const DELTA_RANGE_MS: u128 = 100;

/// Milliseconds the controller sleeps between two inspections of the window.
pub const UPDATE_INTERVAL_MS: u64 = 300;

} // verus!
