use vstd::prelude::*;
use crate::error::AppError;
use crate::ident::{
    BlockIdentifier, classify_identifier, is_hex64, parse_u32_spec, validate_header_hash,
    validate_txid,
};
use crate::index::{block_at_height, block_with_hash, header_height, page_spec, tx_height};
use crate::model::{
    limit_or_default, BlockDetail, BlocksQuery, BlocksResponse, HeaderStatus, TransactionStatus,
};
use crate::page::response_of;
use crate::store::MockStore;
use vstd::string::StringSliceAdditionalSpecFns;

verus! {

/// The listing a query asks for, with the default page size when it names none.
pub fn get_blocks(store: &MockStore, query: &BlocksQuery) -> (r: BlocksResponse)
    requires
        store.wf(),
    ensures
        response_of(r, page_spec(store@, limit_or_default(*query), query.cursor), limit_or_default(*query),
            store@.len() as u32),
{
    store.get_blocks(query.requested_limit(), query.cursor)
}

/// Looks a block up by a caller-supplied identifier: by height when it reads
/// as a `u32`, else by hash when it is 64 hexadecimal digits, else
/// `InvalidBlockIdentifier` carrying it, before any lookup.
pub fn get_block_by_identifier<'a>(store: &'a MockStore, identifier: &str) -> (r: Result<&'a BlockDetail, AppError>)
    requires
        store.wf(),
    ensures
        match parse_u32_spec(identifier.spec_bytes()) {
            Some(h) => match r {
                Ok(d) => block_at_height(store@, h) == Some(*d),
                Err(e) => block_at_height(store@, h) is None && e is BlockNotFound,
            },
            None => if is_hex64(identifier.spec_bytes()) {
                match r {
                    Ok(d) => block_with_hash(store@, identifier@) == Some(*d),
                    Err(e) => block_with_hash(store@, identifier@) is None && e is BlockNotFound,
                }
            } else {
                r matches Err(AppError::InvalidBlockIdentifier(m)) && m@ == identifier@
            },
        },
{
    match classify_identifier(identifier) {
        BlockIdentifier::Height(h) => store.get_block_by_height(h),
        BlockIdentifier::Hash(hash) => store.get_block_by_hash(hash.as_str()),
        BlockIdentifier::Invalid(text) => Err(AppError::InvalidBlockIdentifier(text)),
    }
}

/// Validates a transaction id (64 hexadecimal digits) and reports whether it
/// is included, and at which height.
pub fn get_transaction_status(store: &MockStore, txid: &str) -> (r: Result<TransactionStatus, AppError>)
    requires
        store.wf(),
    ensures
        is_hex64(txid.spec_bytes()) ==> (r matches Ok(st) && st.included == (tx_height(store@, txid@) is Some)
            && st.block_height == tx_height(store@, txid@)),
        !is_hex64(txid.spec_bytes()) ==> (r matches Err(AppError::InvalidTransactionId(m)) && m@ == txid@),
{
    match validate_txid(txid) {
        Err(e) => Err(e),
        Ok(()) => store.get_transaction_status(txid),
    }
}

/// Validates a header hash (64 hexadecimal digits) and reports whether it is
/// in the chain, and at which height.
pub fn get_header_status(store: &MockStore, hash: &str) -> (r: Result<HeaderStatus, AppError>)
    requires
        store.wf(),
    ensures
        is_hex64(hash.spec_bytes()) ==> (r matches Ok(st) && st.in_chain == (header_height(store@, hash@) is Some)
            && st.block_height == header_height(store@, hash@)),
        !is_hex64(hash.spec_bytes()) ==> (r matches Err(AppError::InvalidHeaderHash(m)) && m@ == hash@),
{
    match validate_header_hash(hash) {
        Err(e) => Err(e),
        Ok(()) => store.get_header_status(hash),
    }
}

} // verus!
