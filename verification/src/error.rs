use vstd::prelude::*;

verus! {

/// Errors reported by the economic operations of this crate.
#[derive(Debug, Clone)]
pub enum CommonError {
    PolicyDenied(String),
    InvalidInputError(String),
    DatabaseError(String),
    IoError(String),
    SerializationError(String),
    DeserializationError(String),
    ResourceNotFound(String),
    InsufficientFunds(String),
    CRDTError(String),
    LockError(String),
    NotImplementedError(String),
    InternalError(String),
    /// Too few validators confirmed an operation.
    InsufficientConsensus,
    /// The account is frozen, penalized or under review.
    AccountNotActive,
}

} // verus!
