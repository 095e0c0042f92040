use vstd::prelude::*;

verus! {

/// Failures of a blocking backend, as its callers report them.
#[derive(Debug, PartialEq, Eq, Structural)]
pub enum BlockerError {
    SiteAlreadyBlocked,
    SiteAlreadyUnblocked,
    FailedToSerialize,
    FailedToDeserialize,
}

impl BlockerError {
    /// A human-readable description of the failure.
    pub fn message(&self) -> (r: &'static str)
        ensures
            r@ == (match self {
                BlockerError::SiteAlreadyBlocked => "Site already blocked"@,
                BlockerError::SiteAlreadyUnblocked => "Site already unblocked"@,
                BlockerError::FailedToSerialize => "Failed to serialize"@,
                BlockerError::FailedToDeserialize => "Failed to deserialize"@,
            }),
    {
        match self {
            BlockerError::SiteAlreadyBlocked => "Site already blocked",
            BlockerError::SiteAlreadyUnblocked => "Site already unblocked",
            BlockerError::FailedToSerialize => "Failed to serialize",
            BlockerError::FailedToDeserialize => "Failed to deserialize",
        }
    }
}

} // verus!
