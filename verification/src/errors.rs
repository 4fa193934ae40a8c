use vstd::prelude::*;

verus! {

/// The ways a synchronization step can fail.
///
/// Every fallible function of the engine reports one of these; callers decide
/// whether the failure aborts the whole run or only the current file.
#[derive(Clone, Copy, Debug, PartialEq, Eq, Structural)]
pub enum SyncError {
    /// A path did not fall under the expected root during translation.
    PathMismatch,
    /// The metadata store could not complete a read or write.
    StoreError,
    /// The remote side was unreachable or answered with an error status.
    TransportError,
    /// A local disk read, write or stat failed.
    IoError,
    /// Two records of one vault carry the same assigned file id for
    /// different logical paths.
    IdentityConflict,
}

impl SyncError {
    /// A short description, for callers that report failures as text.
    pub fn message(&self) -> (r: &'static str)
        ensures
            r@ =~= match self {
                SyncError::PathMismatch => "path mismatch"@,
                SyncError::StoreError => "store error"@,
                SyncError::TransportError => "transport error"@,
                SyncError::IoError => "io error"@,
                SyncError::IdentityConflict => "identity conflict"@,
            },
    {
        match self {
            SyncError::PathMismatch => "path mismatch",
            SyncError::StoreError => "store error",
            SyncError::TransportError => "transport error",
            SyncError::IoError => "io error",
            SyncError::IdentityConflict => "identity conflict",
        }
    }
}

} // verus!
