//! The error taxonomy shared by every operation of the core.

use vstd::prelude::*;

verus! {

/// Why an operation was refused.  A failed operation never leaves a partial
/// mutation behind: every function that returns one of these also promises
/// that the store is unchanged.
#[derive(Clone, Copy, Debug, PartialEq, Eq, Structural)]
pub enum CoreError {
    /// The addressed entity does not exist.
    NotFound,
    /// The caller fails the entity's authorization policy.
    Unauthorized,
    /// A capacity ceiling (distinct owners, items per owner, grantees per
    /// note) would be exceeded.
    CapacityExceeded,
    /// A payload exceeds the payload-size ceiling.
    PayloadTooLarge,
    /// An ID counter cannot advance any further.  Unrecoverable.
    AllocatorExhausted,
    /// The external key-derivation exchange failed.
    ExternalServiceFailure,
    /// The operation is not permitted in the entity's current state, for
    /// example advancing a job that already reached a terminal status.
    InvalidState,
}

impl CoreError {
    /// A short stable label for logs and transport, one per variant.
    pub fn label(&self) -> (r: &'static str)
        ensures
            r@ == self.label_spec(),
    {
        match self {
            CoreError::NotFound => "not found",
            CoreError::Unauthorized => "unauthorized",
            CoreError::CapacityExceeded => "capacity exceeded",
            CoreError::PayloadTooLarge => "payload too large",
            CoreError::AllocatorExhausted => "allocator exhausted",
            CoreError::ExternalServiceFailure => "external service failure",
            CoreError::InvalidState => "invalid state",
        }
    }

    pub open spec fn label_spec(&self) -> Seq<char> {
        match self {
            CoreError::NotFound => "not found"@,
            CoreError::Unauthorized => "unauthorized"@,
            CoreError::CapacityExceeded => "capacity exceeded"@,
            CoreError::PayloadTooLarge => "payload too large"@,
            CoreError::AllocatorExhausted => "allocator exhausted"@,
            CoreError::ExternalServiceFailure => "external service failure"@,
            CoreError::InvalidState => "invalid state"@,
        }
    }
}

} // verus!
