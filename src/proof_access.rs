use vstd::prelude::*;
use crate::error::AppError;
use crate::text::{decimal_chars, decimal_string};

verus! {

/// Decides a proof request before the artifact is read: an unknown block is
/// `BlockNotFound`, a known block without an artifact record is
/// `ProofNotFound`, both carrying the height in decimal.
pub fn proof_access(height: u32, block_known: bool, record_known: bool) -> (r: Result<(), AppError>)
    ensures
        !block_known ==> (r matches Err(AppError::BlockNotFound(m)) && m@ == decimal_chars(height as nat)),
        block_known && !record_known ==> (r matches Err(AppError::ProofNotFound(m)) && m@
            == decimal_chars(height as nat)),
        block_known && record_known ==> r is Ok,
{
    if !block_known {
        Err(AppError::BlockNotFound(decimal_string(height)))
    } else if !record_known {
        Err(AppError::ProofNotFound(decimal_string(height)))
    } else {
        Ok(())
    }
}

/// The answer to a proof request once the artifact listed for `height` has
/// been read: its bytes, or `ProofNotFound` when it could not be read.
pub fn proof_payload(height: u32, contents: Option<Vec<u8>>) -> (r: Result<Vec<u8>, AppError>)
    ensures
        match contents {
            Some(b) => r == Ok::<Vec<u8>, AppError>(b),
            None => r matches Err(AppError::ProofNotFound(m)) && m@ == decimal_chars(height as nat),
        },
{
    match contents {
        Some(b) => Ok(b),
        None => Err(AppError::ProofNotFound(decimal_string(height))),
    }
}

} // verus!
