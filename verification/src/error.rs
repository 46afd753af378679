//! Error kinds distinguished by the scheduler core.

use vstd::prelude::*;

verus! {

/// Errors surfaced by the scheduler.
///
/// Registration errors (`InvalidRequest`) propagate synchronously to the
/// caller and leave the queue untouched; execution errors are recorded on the
/// failing task; `CorruptedTaskQueue` signals an internal invariant violation
/// and is fatal.
#[derive(Clone, Debug)]
pub enum Error {
    /// A submitted task failed static validation; no task was created.
    InvalidRequest,
    /// The named index does not exist.
    IndexNotFound(String),
    /// The named index already exists.
    IndexAlreadyExists(String),
    /// The task store contradicts its own invariants.
    CorruptedTaskQueue,
    /// Opaque failure of the underlying indexing engine.
    EngineError(String),
    /// A content file could not be read or removed.
    ContentFileError,
}

} // verus!
