use vstd::prelude::*;
use crate::index::{
    block_at_height, block_with_hash, can_upsert, details_compatible, fits_unless_same_height,
    has_detail_for, has_height, lemma_start_of_bound, lemma_start_of_split, page_spec, page_start,
    represents, store_wf, summaries, upserted,
};
use crate::model::{BlockDetail, BlockRecord, detail_of};
use crate::page::{MAX_PAGE, clamp_spec};

verus! {

/// A page requested with cursor `c` holds only blocks below `c`, in strictly
/// descending height, so the block at `c` and any block at or above it never
/// appear with it.
pub proof fn lemma_cursor_page_below(s: Seq<BlockDetail>, limit: u32, c: u32)
    requires
        store_wf(s),
    ensures
        forall|i: int|
            0 <= i < page_spec(s, limit, Some(c)).len() ==> (#[trigger] page_spec(
                s,
                limit,
                Some(c),
            )[i]).height < c,
        forall|i: int, j: int|
            0 <= i < j < page_spec(s, limit, Some(c)).len() ==> page_spec(s, limit, Some(c))[i].height
                > page_spec(s, limit, Some(c))[j].height,
{
    lemma_start_of_split(s, c);
    lemma_start_of_bound(s, c);
    let st = page_start(s, Some(c));
    let p = page_spec(s, limit, Some(c));
    assert forall|i: int| 0 <= i < p.len() implies (#[trigger] p[i]).height < c by {
        assert(p[i] == s[st + i].summary);
    }
    assert forall|i: int, j: int| 0 <= i < j < p.len() implies p[i].height > p[j].height by {
        assert(p[i] == s[st + i].summary);
        assert(p[j] == s[st + j].summary);
    }
}

/// Every page holds at most `MAX_PAGE` blocks, and any limit at or above
/// `MAX_PAGE` gives the same page and the same clamped size as `MAX_PAGE`.
pub proof fn lemma_page_capped(s: Seq<BlockDetail>, limit: u32, cursor: Option<u32>)
    requires
        store_wf(s),
    ensures
        page_spec(s, limit, cursor).len() <= MAX_PAGE,
        limit >= MAX_PAGE ==> clamp_spec(limit) == clamp_spec(MAX_PAGE) && page_spec(s, limit, cursor)
            == page_spec(s, MAX_PAGE, cursor),
{
    if let Some(c) = cursor {
        lemma_start_of_bound(s, c);
    }
}

/// Looking a block up by its height and by its hash yields the same block.
pub proof fn lemma_height_and_hash_agree(s: Seq<BlockDetail>, h: u32)
    requires
        store_wf(s),
    ensures
        block_at_height(s, h) matches Some(b) ==> block_with_hash(s, b.summary.hash@) == Some(b),
{
    if let Some(b) = block_at_height(s, h) {
        let i = choose|i: int| 0 <= i < s.len() && s[i].summary.height == h;
        assert(s[i].summary.hash@ == b.summary.hash@);
        let j = choose|j: int| 0 <= j < s.len() && s[j].summary.hash@ == b.summary.hash@;
        if i != j {
            assert(details_compatible(s[i], s[j]));
        }
    }
}

/// Looking a block up by its hash and then by its height yields the same
/// block.
pub proof fn lemma_hash_and_height_agree(s: Seq<BlockDetail>, hash: Seq<char>)
    requires
        store_wf(s),
    ensures
        block_with_hash(s, hash) matches Some(b) ==> block_at_height(s, b.summary.height) == Some(b),
{
    if let Some(b) = block_with_hash(s, hash) {
        let i = choose|i: int| 0 <= i < s.len() && s[i].summary.hash@ == hash;
        let j = choose|j: int| 0 <= j < s.len() && s[j].summary.height == b.summary.height;
        if i != j {
            assert(details_compatible(s[i], s[j]));
        }
    }
}

/// A block stored from a record is found at its height with the record's
/// transaction ids in the record's order: position `k` in the block holds the
/// record's `k`-th id.
pub proof fn lemma_round_trip(s: Seq<BlockDetail>, rs: Seq<BlockRecord>, j: int)
    requires
        store_wf(s),
        represents(s, rs),
        0 <= j < rs.len(),
    ensures
        block_at_height(s, rs[j].height) matches Some(b) && b.txids@ == rs[j].txids@
            && b.summary.hash == rs[j].hash,
        forall|k: int| 0 <= k < rs[j].txids@.len() ==> block_at_height(s, rs[j].height)->Some_0.txids@[k]
            == #[trigger] rs[j].txids@[k],
{
    assert(has_detail_for(s, rs[j]));
    let k = choose|k: int| 0 <= k < s.len() && detail_of(#[trigger] s[k], rs[j]);
    let i = choose|i: int| 0 <= i < s.len() && s[i].summary.height == rs[j].height;
    if i != k {
        assert(details_compatible(s[i], s[k]));
    }
}

/// Upserting a record a second time changes no block summary, so no listing:
/// after a successful upsert of `r`, upserting `r` again succeeds and leaves
/// every summary as it was.
pub proof fn lemma_upsert_twice(s: Seq<BlockDetail>, s1: Seq<BlockDetail>, s2: Seq<BlockDetail>, r: BlockRecord)
    requires
        store_wf(s),
        store_wf(s1),
        can_upsert(s, r),
        upserted(s, s1, r),
    ensures
        can_upsert(s1, r),
        upserted(s1, s2, r) ==> summaries(s2) == summaries(s1),
{
    let m: int = if has_height(s, r.height) {
        choose|i: int| 0 <= i < s.len() && s[i].summary.height == r.height
    } else {
        let (p, d) = choose|p: int, d: BlockDetail|
            #![trigger s.insert(p, d)]
            0 <= p <= s.len() && detail_of(d, r) && s1 == s.insert(p, d);
        assert(s1[p] == d);
        p
    };
    assert(0 <= m < s1.len() && detail_of(s1[m], r));
    assert(has_height(s1, r.height));
    assert forall|k: int| 0 <= k < s1.len() implies fits_unless_same_height(#[trigger] s1[k], r) by {
        if has_height(s, r.height) {
            if s[k].summary.height != r.height {
                assert(s1[k] == s[k]);
                assert(fits_unless_same_height(s[k], r));
            }
        } else {
            let (p, d) = choose|p: int, d: BlockDetail|
                #![trigger s.insert(p, d)]
                0 <= p <= s.len() && detail_of(d, r) && s1 == s.insert(p, d);
            if k < p {
                assert(s1[k] == s[k]);
                assert(fits_unless_same_height(s[k], r));
            } else if k > p {
                assert(s1[k] == s[k - 1]);
                assert(fits_unless_same_height(s[k - 1], r));
            }
        }
    }
    if upserted(s1, s2, r) {
        assert forall|k: int| 0 <= k < s1.len() implies (#[trigger] s2[k]).summary == s1[k].summary by {
            if s1[k].summary.height == r.height {
                if k != m {
                    assert(details_compatible(s1[k], s1[m]));
                }
            }
        }
        assert(summaries(s2) =~= summaries(s1));
    }
}

} // verus!
