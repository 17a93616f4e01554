//! The ways in which an operation on the store can be turned down.

use vstd::prelude::*;

verus! {

/// Why the store did not carry out an operation.
#[derive(Clone, Copy, Debug, PartialEq, Eq, Structural)]
pub enum StoreError {
    /// The parent named by the request is not in its collection.
    ParentNotFound,
    /// The parent already has a child of that name.
    AlreadyExists,
    /// The player already holds a time that is as short or shorter.
    NotImproved,
    /// The identifier offered for the new entity already names another one.
    IdentifierInUse,
    /// The saved state cannot be read as a snapshot, or breaks a rule that
    /// the store keeps.
    CorruptSnapshot,
    /// A file of the saved state is there but could not be read.
    SnapshotIoFailure,
}

/// How a request that was turned down is answered.
#[derive(Clone, Copy, Debug, PartialEq, Eq, Structural)]
pub enum Verdict {
    /// What the request names is not there.
    NotFound,
    /// What the request asks for is in the way of what is there.
    Conflict,
    /// The store could not do its part; the request may be sent again.
    Failure,
}

impl StoreError {
    /// The answer that this error calls for.
    pub open spec fn spec_verdict(self) -> Verdict {
        match self {
            StoreError::ParentNotFound => Verdict::NotFound,
            StoreError::AlreadyExists => Verdict::Conflict,
            StoreError::NotImproved => Verdict::Conflict,
            StoreError::IdentifierInUse => Verdict::Failure,
            StoreError::CorruptSnapshot => Verdict::Failure,
            StoreError::SnapshotIoFailure => Verdict::Failure,
        }
    }

    /// The answer that this error calls for: a missing parent is not found, a
    /// name that is taken and a time that is no better are conflicts, and
    /// everything else is a failure of the store.
    #[verifier::when_used_as_spec(spec_verdict)]
    pub fn verdict(self) -> (verdict: Verdict)
        ensures
            verdict == self.spec_verdict(),
    {
        match self {
            StoreError::ParentNotFound => Verdict::NotFound,
            StoreError::AlreadyExists => Verdict::Conflict,
            StoreError::NotImproved => Verdict::Conflict,
            StoreError::IdentifierInUse => Verdict::Failure,
            StoreError::CorruptSnapshot => Verdict::Failure,
            StoreError::SnapshotIoFailure => Verdict::Failure,
        }
    }
}

} // verus!
