//! The library's error type.
use vstd::prelude::*;

verus! {

/// What can go wrong in the sync engine.
#[derive(Debug, Clone, PartialEq, Eq)]
pub enum SyncError {
    /// A generic cloud-sync failure with a human-readable reason.
    CloudSync(String),
    /// A transport-level connectivity failure (connect / timeout / DNS).
    CloudSyncNetwork(String),
    /// An authentication failure (the session is invalid or refused).
    CloudSyncAuth(String),
    /// A non-success HTTP response from the backend.
    CloudSyncHttp { context: String, status: u16, code: String },
    /// A manifest compare-and-swap lost the race.
    CloudSyncConflict,
    /// A pulled bucket failed to apply locally.
    CloudSyncMerge(String),
    /// A blob the manifest names is missing from storage.
    CloudSyncBlobNotFound(String),
    /// The local database refused an operation.
    Database(String),
    /// A lock was poisoned by a panicking holder.
    LockPoisoned,
    /// A backup could not be written or restored.
    Backup(String),
}

/// Whether a failure is a transient connectivity problem worth an automatic retry:
/// a transport failure, or an HTTP 429 / 5xx response.
pub open spec fn spec_is_transient(e: SyncError) -> bool {
    match e {
        SyncError::CloudSyncNetwork(_) => true,
        SyncError::CloudSyncHttp { status, .. } => status == 429 || status >= 500,
        _ => false,
    }
}

impl SyncError {
    /// Whether this failure is transient (see [`spec_is_transient`]).
    pub fn is_transient(&self) -> (r: bool)
        ensures
            r == spec_is_transient(*self),
    {
        match self {
            SyncError::CloudSyncNetwork(_) => true,
            SyncError::CloudSyncHttp { status, .. } => *status == 429 || *status >= 500,
            _ => false,
        }
    }
}

} // verus!
