use vstd::prelude::*;
use crate::model::{BlockSummary, BlocksResponse};

verus! {

/// The largest page a listing returns.
pub const MAX_PAGE: u32 = 50;

/// A requested page size clamped to `1..=MAX_PAGE`.
pub open spec fn clamp_spec(limit: u32) -> u32 {
    if limit < 1 {
        1
    } else if limit > MAX_PAGE {
        MAX_PAGE
    } else {
        limit
    }
}

/// Clamps a requested page size to `1..=MAX_PAGE`.
pub fn clamp_limit(limit: u32) -> (r: u32)
    ensures
        r == clamp_spec(limit),
        1 <= r <= MAX_PAGE,
{
    if limit < 1 {
        1
    } else if limit > MAX_PAGE {
        MAX_PAGE
    } else {
        limit
    }
}

/// The heights of a sequence of summaries.
pub open spec fn summary_heights(s: Seq<BlockSummary>) -> Seq<u32> {
    s.map_values(|b: BlockSummary| b.height)
}

/// A response carries `blocks` as its page: it has a next page exactly when
/// the page is full, and then the cursor is the last (lowest) height.
pub open spec fn response_of(r: BlocksResponse, blocks: Seq<BlockSummary>, limit: u32, total: u32) -> bool {
    &&& r.blocks@ == blocks
    &&& r.total == total
    &&& r.has_next == (blocks.len() == clamp_spec(limit))
    &&& r.next_cursor == if blocks.len() == clamp_spec(limit) {
        Some(blocks.last().height)
    } else {
        None::<u32>
    }
}

/// Wraps a page of at most the clamped limit into a response.
pub fn finish_page(blocks: Vec<BlockSummary>, limit: u32, total: u32) -> (r: BlocksResponse)
    requires
        blocks@.len() <= clamp_spec(limit),
    ensures
        response_of(r, blocks@, limit, total),
{
    let page = clamp_limit(limit);
    let n = blocks.len();
    let has_next = n == page as usize;
    let next_cursor = if has_next {
        Some(blocks[n - 1].height)
    } else {
        None
    };
    BlocksResponse { blocks, total, has_next, next_cursor }
}

} // verus!
