use vstd::prelude::*;

verus! {

/// The failure kinds of the block index. Not-found and invalid-input kinds
/// carry the offending identifier; store faults carry a description.
#[derive(Debug, Clone)]
pub enum AppError {
    BlockNotFound(String),
    ProofNotFound(String),
    TransactionNotFound(String),
    HeaderNotFound(String),
    InvalidBlockIdentifier(String),
    InvalidTransactionId(String),
    InvalidHeaderHash(String),
    InvalidQueryParameter(String),
    Store(String),
    Json(String),
    Io(String),
    Internal,
}

impl AppError {
    /// Whether the error is a missing-record kind rather than a fault.
    pub fn is_not_found(&self) -> (r: bool)
        ensures
            r == (self is BlockNotFound || self is ProofNotFound || self is TransactionNotFound
                || self is HeaderNotFound),
    {
        match self {
            AppError::BlockNotFound(_) => true,
            AppError::ProofNotFound(_) => true,
            AppError::TransactionNotFound(_) => true,
            AppError::HeaderNotFound(_) => true,
            _ => false,
        }
    }

    /// Whether the error rejects malformed caller input.
    pub fn is_invalid_input(&self) -> (r: bool)
        ensures
            r == (self is InvalidBlockIdentifier || self is InvalidTransactionId
                || self is InvalidHeaderHash || self is InvalidQueryParameter),
    {
        match self {
            AppError::InvalidBlockIdentifier(_) => true,
            AppError::InvalidTransactionId(_) => true,
            AppError::InvalidHeaderHash(_) => true,
            AppError::InvalidQueryParameter(_) => true,
            _ => false,
        }
    }
}

/// `Result` with the index's error type.
pub type Result<T> = core::result::Result<T, AppError>;

} // verus!
