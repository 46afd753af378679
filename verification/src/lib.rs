//! Core of a search engine's index scheduler: a task queue with secondary
//! indexes kept as roaring bitmaps, an autobatcher that merges runs of
//! enqueued tasks into observationally equivalent batches, and a batch
//! executor that drives an in-memory index model while maintaining the
//! queue's consistency invariants.

use vstd::prelude::*;

pub mod autobatcher;
pub mod batch;
pub mod bitmaps;
pub mod error;
pub mod executor;
pub mod laws;
pub mod queue;
pub mod schema;
pub mod search;
pub mod task;
pub mod views;

verus! {

/// The scheduler's internal task identifier.
pub type TaskId = u32;

} // verus!
