use vstd::prelude::*;
use crate::model::{BlockDetail, BlockRecord, BlockSummary, detail_of};
use crate::page::clamp_spec;
use crate::text::proof_url_spec;

verus! {

/// No transaction id of `a` is also one of `b`.
pub open spec fn txids_disjoint(a: Seq<String>, b: Seq<String>) -> bool {
    forall|x: int, y: int| 0 <= x < a.len() && 0 <= y < b.len() ==> a[x]@ != b[y]@
}

/// Two blocks may share a store: distinct heights, distinct hashes, and no
/// common transaction id.
pub open spec fn details_compatible(a: BlockDetail, b: BlockDetail) -> bool {
    &&& a.summary.height != b.summary.height
    &&& a.summary.hash@ != b.summary.hash@
    &&& txids_disjoint(a.txids@, b.txids@)
}

/// Two dataset records may share a store.
pub open spec fn records_compatible(a: BlockRecord, b: BlockRecord) -> bool {
    &&& a.height != b.height
    &&& a.hash@ != b.hash@
    &&& txids_disjoint(a.txids@, b.txids@)
}

/// A block of the store and a record that is to join it may share the store.
pub open spec fn detail_fits(a: BlockDetail, b: BlockRecord) -> bool {
    &&& a.summary.height != b.height
    &&& a.summary.hash@ != b.hash@
    &&& txids_disjoint(a.txids@, b.txids@)
}

/// A well-formed dataset: every two records may share a store.
pub open spec fn dataset_ok(rs: Seq<BlockRecord>) -> bool {
    forall|i: int, j: int| 0 <= i < j < rs.len() ==> records_compatible(rs[i], rs[j])
}

/// Heights strictly descending.
pub open spec fn heights_desc(s: Seq<BlockDetail>) -> bool {
    forall|i: int, j: int| 0 <= i < j < s.len() ==> s[i].summary.height > s[j].summary.height
}

/// The invariant of a block store: ordered by height, highest first; heights,
/// hashes and transaction ids each name at most one block; every proof path
/// embeds its block's height; the count fits a `u32`.
pub open spec fn store_wf(s: Seq<BlockDetail>) -> bool {
    &&& s.len() <= u32::MAX
    &&& heights_desc(s)
    &&& forall|i: int, j: int|
        0 <= i < s.len() && 0 <= j < s.len() && i != j ==> details_compatible(s[i], s[j])
    &&& forall|i: int|
        0 <= i < s.len() ==> (#[trigger] s[i]).proof_url@ == proof_url_spec(s[i].summary.height as nat)
}

/// Some block of `s` is the one that `r` describes.
pub open spec fn has_detail_for(s: Seq<BlockDetail>, r: BlockRecord) -> bool {
    exists|k: int| 0 <= k < s.len() && detail_of(#[trigger] s[k], r)
}

/// Some record of `rs` describes `d`.
pub open spec fn has_record_for(rs: Seq<BlockRecord>, d: BlockDetail) -> bool {
    exists|j: int| 0 <= j < rs.len() && detail_of(d, #[trigger] rs[j])
}

/// The store holds exactly the blocks that the records describe.
pub open spec fn represents(s: Seq<BlockDetail>, rs: Seq<BlockRecord>) -> bool {
    &&& s.len() == rs.len()
    &&& forall|j: int| 0 <= j < rs.len() ==> #[trigger] has_detail_for(s, rs[j])
    &&& forall|k: int| 0 <= k < s.len() ==> #[trigger] has_record_for(rs, s[k])
}

/// A stored block leaves room for a record: it holds the record's own height,
/// or it may share the store with the record's block.
pub open spec fn fits_unless_same_height(d: BlockDetail, r: BlockRecord) -> bool {
    d.summary.height == r.height || detail_fits(d, r)
}

/// An upsert of `r` into `s` succeeds: no block of another height has its
/// hash or one of its transaction ids, and a new height still fits the count.
pub open spec fn can_upsert(s: Seq<BlockDetail>, r: BlockRecord) -> bool {
    &&& forall|k: int| 0 <= k < s.len() ==> fits_unless_same_height(#[trigger] s[k], r)
    &&& (has_height(s, r.height) || s.len() < u32::MAX)
}

/// `s2` is `s` after an upsert of `r`: the block at `r`'s height is replaced in
/// place, or, when there is none, `r`'s block is inserted.
pub open spec fn upserted(s: Seq<BlockDetail>, s2: Seq<BlockDetail>, r: BlockRecord) -> bool {
    if has_height(s, r.height) {
        &&& s2.len() == s.len()
        &&& forall|k: int|
            0 <= k < s.len() ==> if (#[trigger] s[k]).summary.height == r.height {
                detail_of(s2[k], r)
            } else {
                s2[k] == s[k]
            }
    } else {
        exists|p: int, d: BlockDetail|
            #![trigger s.insert(p, d)]
            0 <= p <= s.len() && detail_of(d, r) && s2 == s.insert(p, d)
    }
}

/// Some block has height `h`.
pub open spec fn has_height(s: Seq<BlockDetail>, h: u32) -> bool {
    exists|i: int| 0 <= i < s.len() && s[i].summary.height == h
}

/// The block at height `h`, if any.
pub open spec fn block_at_height(s: Seq<BlockDetail>, h: u32) -> Option<BlockDetail> {
    if has_height(s, h) {
        Some(s[choose|i: int| 0 <= i < s.len() && s[i].summary.height == h])
    } else {
        None
    }
}

/// Some block has hash `hash`.
pub open spec fn has_hash(s: Seq<BlockDetail>, hash: Seq<char>) -> bool {
    exists|i: int| 0 <= i < s.len() && s[i].summary.hash@ == hash
}

/// The block with hash `hash`, if any.
pub open spec fn block_with_hash(s: Seq<BlockDetail>, hash: Seq<char>) -> Option<BlockDetail> {
    if has_hash(s, hash) {
        Some(s[choose|i: int| 0 <= i < s.len() && s[i].summary.hash@ == hash])
    } else {
        None
    }
}

/// Some block lists the transaction `t`.
pub open spec fn has_txid(s: Seq<BlockDetail>, t: Seq<char>) -> bool {
    exists|i: int, k: int| 0 <= i < s.len() && 0 <= k < s[i].txids@.len() && s[i].txids@[k]@ == t
}

/// The height of the block that lists the transaction `t`, if any.
pub open spec fn tx_height(s: Seq<BlockDetail>, t: Seq<char>) -> Option<u32> {
    if has_txid(s, t) {
        let (i, k) = choose|i: int, k: int|
            0 <= i < s.len() && 0 <= k < s[i].txids@.len() && s[i].txids@[k]@ == t;
        Some(s[i].summary.height)
    } else {
        None
    }
}

/// The height of the block with hash `hash`, if any.
pub open spec fn header_height(s: Seq<BlockDetail>, hash: Seq<char>) -> Option<u32> {
    match block_with_hash(s, hash) {
        Some(b) => Some(b.summary.height),
        None => None,
    }
}

/// How many leading blocks stand at or above the cursor height `c`.
pub open spec fn start_of(s: Seq<BlockDetail>, c: u32) -> nat
    decreases s.len(),
{
    if s.len() == 0 {
        0
    } else if s[0].summary.height >= c {
        1 + start_of(s.drop_first(), c)
    } else {
        0
    }
}

/// Where a page begins: at the top without a cursor, else at the first block
/// below the cursor.
pub open spec fn page_start(s: Seq<BlockDetail>, cursor: Option<u32>) -> int {
    match cursor {
        None => 0,
        Some(c) => start_of(s, c) as int,
    }
}

/// Where a page ends: after the clamped limit, or at the bottom of the store.
pub open spec fn page_end(s: Seq<BlockDetail>, limit: u32, cursor: Option<u32>) -> int {
    let st = page_start(s, cursor);
    if st + clamp_spec(limit) < s.len() {
        st + clamp_spec(limit)
    } else {
        s.len() as int
    }
}

/// The summaries of a run of blocks.
pub open spec fn summaries(s: Seq<BlockDetail>) -> Seq<BlockSummary> {
    s.map_values(|b: BlockDetail| b.summary)
}

/// The page a listing with `limit` and `cursor` returns.
pub open spec fn page_spec(s: Seq<BlockDetail>, limit: u32, cursor: Option<u32>) -> Seq<BlockSummary> {
    summaries(s.subrange(page_start(s, cursor), page_end(s, limit, cursor)))
}

pub proof fn lemma_start_of_bound(s: Seq<BlockDetail>, c: u32)
    ensures
        start_of(s, c) <= s.len(),
    decreases s.len(),
{
    if s.len() > 0 {
        lemma_start_of_bound(s.drop_first(), c);
    }
}

pub proof fn lemma_start_of_at(s: Seq<BlockDetail>, c: u32, i: int)
    requires
        0 <= i <= s.len(),
        forall|j: int| 0 <= j < i ==> s[j].summary.height >= c,
        i == s.len() || s[i].summary.height < c,
    ensures
        start_of(s, c) == i,
    decreases i,
{
    if i > 0 {
        let t = s.drop_first();
        assert forall|j: int| 0 <= j < i - 1 implies t[j].summary.height >= c by {
            assert(t[j] == s[j + 1]);
        }
        if i < s.len() {
            assert(t[i - 1] == s[i]);
        }
        lemma_start_of_at(t, c, i - 1);
    }
}

/// Every block at or after the page start lies below the cursor, and every
/// block before it does not.
pub proof fn lemma_start_of_split(s: Seq<BlockDetail>, c: u32)
    requires
        heights_desc(s),
    ensures
        forall|j: int| 0 <= j < start_of(s, c) ==> s[j].summary.height >= c,
        forall|j: int| start_of(s, c) <= j < s.len() ==> s[j].summary.height < c,
    decreases s.len(),
{
    if s.len() > 0 {
        let t = s.drop_first();
        assert(heights_desc(t)) by {
            assert forall|i: int, j: int| 0 <= i < j < t.len() implies t[i].summary.height
                > t[j].summary.height by {
                assert(t[i] == s[i + 1] && t[j] == s[j + 1]);
            }
        }
        lemma_start_of_split(t, c);
        lemma_start_of_bound(s, c);
        if s[0].summary.height >= c {
            assert forall|j: int| 0 <= j < start_of(s, c) implies s[j].summary.height >= c by {
                if j > 0 {
                    assert(s[j] == t[j - 1]);
                }
            }
            assert forall|j: int| start_of(s, c) <= j < s.len() implies s[j].summary.height < c by {
                assert(s[j] == t[j - 1]);
            }
        }
    }
}

} // verus!
