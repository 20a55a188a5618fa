//! The failures that the engine reports.

use vstd::prelude::*;

verus! {

/// Why a blob operation failed.
#[derive(Clone, Copy, Debug, PartialEq, Eq, Structural)]
pub enum BlobError {
    /// No content is stored under the requested id.
    NotFound,
    /// The store could not be reached; nothing was changed, a retry is safe.
    TransportError,
}

/// Why an append to the event log failed.
#[derive(Clone, Copy, Debug, PartialEq, Eq, Structural)]
pub enum LogError {
    /// The backing store cannot take another record.
    StorageUnavailable,
}

/// Every failure that a repository operation can report.
#[derive(Clone, Copy, Debug, PartialEq, Eq, Structural)]
pub enum RepoError {
    /// A referenced node, tag or blob is absent.
    NotFound,
    /// The id or path of a create is already taken.
    AlreadyExists,
    /// A tag path is empty or holds an empty segment.
    InvalidPath,
    /// The local durable store failed.
    StorageUnavailable,
    /// The remote authority could not be reached.
    SyncUnavailable,
    /// The remote authority delivered events that cannot be applied in order.
    ProtocolError,
    /// A blob operation failed.
    BlobError(BlobError),
}

} // verus!
