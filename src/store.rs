use vstd::prelude::*;
use crate::error::AppError;
use crate::ident::{parse_height, parse_u32_spec};
use crate::index::{
    block_at_height, block_with_hash, can_upsert, dataset_ok, detail_fits, details_compatible,
    fits_unless_same_height, has_detail_for, has_hash, has_height, has_record_for, has_txid,
    header_height, heights_desc, lemma_start_of_at, page_spec, records_compatible, represents,
    store_wf, summaries, tx_height, txids_disjoint, upserted,
};
use crate::model::{
    BlockDetail, BlockRecord, BlockSummary, BlocksResponse, HeaderStatus, TransactionStatus, detail_of,
};
use crate::page::{clamp_limit, finish_page, response_of};
use crate::proof_access::{proof_access, proof_payload};
use crate::text::{decimal_chars, decimal_string};
use vstd::string::StringSliceAdditionalSpecFns;

verus! {

/// Whether no transaction id of `a` is also one of `b`.
fn disjoint_ids(a: &Vec<String>, b: &Vec<String>) -> (r: bool)
    ensures
        r == txids_disjoint(a@, b@),
{
    let mut x: usize = 0;
    while x < a.len()
        invariant
            x <= a@.len(),
            forall|x2: int, y2: int| 0 <= x2 < x && 0 <= y2 < b@.len() ==> a@[x2]@ != b@[y2]@,
        decreases a@.len() - x,
    {
        let mut y: usize = 0;
        while y < b.len()
            invariant
                x < a@.len(),
                y <= b@.len(),
                forall|x2: int, y2: int| 0 <= x2 < x && 0 <= y2 < b@.len() ==> a@[x2]@ != b@[y2]@,
                forall|y2: int| 0 <= y2 < y ==> a@[x as int]@ != #[trigger] b@[y2]@,
            decreases b@.len() - y,
        {
            if a[x] == b[y] {
                return false;
            }
            y = y + 1;
        }
        x = x + 1;
    }
    true
}

/// Whether a stored block and a new record may share the store.
fn fits(d: &BlockDetail, r: &BlockRecord) -> (ok: bool)
    ensures
        ok == detail_fits(*d, *r),
{
    d.summary.height != r.height && !(d.summary.hash == r.hash) && disjoint_ids(&d.txids, &r.txids)
}

/// The first stored block that cannot share the store with `r`, if any.
fn find_conflict(blocks: &Vec<BlockDetail>, r: &BlockRecord) -> (c: Option<usize>)
    ensures
        match c {
            Some(k) => k < blocks@.len() && !detail_fits(blocks@[k as int], *r),
            None => forall|k: int| 0 <= k < blocks@.len() ==> detail_fits(#[trigger] blocks@[k], *r),
        },
{
    let mut k: usize = 0;
    while k < blocks.len()
        invariant
            k <= blocks@.len(),
            forall|j: int| 0 <= j < k ==> detail_fits(#[trigger] blocks@[j], *r),
        decreases blocks@.len() - k,
    {
        if !fits(&blocks[k], r) {
            return Some(k);
        }
        k = k + 1;
    }
    None
}

/// Where a block of a new height `h` goes to keep heights descending.
fn insert_position(blocks: &Vec<BlockDetail>, h: u32) -> (p: usize)
    requires
        heights_desc(blocks@),
        forall|k: int| 0 <= k < blocks@.len() ==> (#[trigger] blocks@[k]).summary.height != h,
    ensures
        p <= blocks@.len(),
        forall|j: int| 0 <= j < p ==> (#[trigger] blocks@[j]).summary.height > h,
        forall|j: int| p <= j < blocks@.len() ==> (#[trigger] blocks@[j]).summary.height < h,
{
    let mut p: usize = 0;
    while p < blocks.len() && blocks[p].summary.height > h
        invariant
            p <= blocks@.len(),
            forall|j: int| 0 <= j < p ==> (#[trigger] blocks@[j]).summary.height > h,
        decreases blocks@.len() - p,
    {
        p = p + 1;
    }
    if p < blocks.len() {
        assert(blocks@[p as int].summary.height < h);
    }
    p
}

/// Adding a compatible record's block at its ordered place keeps the store
/// well formed.
#[verifier::spinoff_prover]
proof fn lemma_place_wf(old: Seq<BlockDetail>, d: BlockDetail, p: int, rec: BlockRecord)
    requires
        store_wf(old),
        old.len() < u32::MAX,
        detail_of(d, rec),
        forall|k: int| 0 <= k < old.len() ==> detail_fits(#[trigger] old[k], rec),
        0 <= p <= old.len(),
        forall|j: int| 0 <= j < p ==> (#[trigger] old[j]).summary.height > rec.height,
        forall|j: int| p <= j < old.len() ==> (#[trigger] old[j]).summary.height < rec.height,
    ensures
        store_wf(old.insert(p, d)),
{
    let s = old.insert(p, d);
    assert forall|k: int| 0 <= k < old.len() implies details_compatible(#[trigger] old[k], d)
        && details_compatible(d, old[k]) by {
        assert(detail_fits(old[k], rec));
        assert(d.txids@ == rec.txids@);
    }
    assert forall|a: int, b: int| 0 <= a < b < s.len() implies s[a].summary.height
        > s[b].summary.height by {
        if b < p {
            assert(s[a] == old[a] && s[b] == old[b]);
        } else if b == p {
            assert(s[a] == old[a]);
        } else if a < p {
            assert(s[a] == old[a] && s[b] == old[b - 1]);
        } else if a == p {
            assert(s[b] == old[b - 1]);
        } else {
            assert(s[a] == old[a - 1] && s[b] == old[b - 1]);
        }
    }
    assert forall|a: int, b: int| 0 <= a < s.len() && 0 <= b < s.len() && a != b implies details_compatible(
        s[a],
        s[b],
    ) by {
        let oa = if a < p { a } else { a - 1 };
        let ob = if b < p { b } else { b - 1 };
        if a != p && b != p {
            assert(s[a] == old[oa] && s[b] == old[ob]);
        } else if a == p {
            assert(s[b] == old[ob]);
        } else {
            assert(s[a] == old[oa]);
        }
    }
    assert forall|i: int| 0 <= i < s.len() implies (#[trigger] s[i]).proof_url@ == crate::text::proof_url_spec(
        s[i].summary.height as nat,
    ) by {
        if i != p {
            let oi = if i < p { i } else { i - 1 };
            assert(s[i] == old[oi]);
        }
    }
}

/// Adding a record's block at any place keeps the store in step with the
/// records.
#[verifier::spinoff_prover]
proof fn lemma_place_represents(old: Seq<BlockDetail>, d: BlockDetail, p: int, rs: Seq<BlockRecord>, rec: BlockRecord)
    requires
        represents(old, rs),
        detail_of(d, rec),
        0 <= p <= old.len(),
    ensures
        represents(old.insert(p, d), rs.push(rec)),
{
    let s = old.insert(p, d);
    let rs2 = rs.push(rec);
    assert forall|j: int| 0 <= j < rs2.len() implies has_detail_for(s, #[trigger] rs2[j]) by {
        if j == rs.len() {
            assert(detail_of(s[p], rs2[j]));
            assert(has_detail_for(s, rs2[j]));
        } else {
            assert(rs2[j] == rs[j]);
            assert(has_detail_for(old, rs[j]));
            let k = choose|k: int| 0 <= k < old.len() && detail_of(#[trigger] old[k], rs[j]);
            if k < p {
                assert(s[k] == old[k]);
                assert(detail_of(s[k], rs2[j]));
            } else {
                assert(s[k + 1] == old[k]);
                assert(detail_of(s[k + 1], rs2[j]));
            }
        }
    }
    assert forall|k: int| 0 <= k < s.len() implies has_record_for(rs2, #[trigger] s[k]) by {
        if k == p {
            assert(detail_of(s[k], rs2[rs.len() as int]));
        } else {
            let ok = if k < p { k } else { k - 1 };
            assert(s[k] == old[ok]);
            assert(has_record_for(rs, old[ok]));
            let j = choose|j: int| 0 <= j < rs.len() && detail_of(old[ok], #[trigger] rs[j]);
            assert(rs2[j] == rs[j]);
            assert(detail_of(s[k], rs2[j]));
        }
    }
    assert(s.len() == rs2.len());
    assert(represents(s, rs2));
}

/// A record that fits every stored block of a consistent dataset extends it
/// to a consistent dataset.
#[verifier::spinoff_prover]
proof fn lemma_place_dataset(old: Seq<BlockDetail>, rs: Seq<BlockRecord>, rec: BlockRecord)
    requires
        represents(old, rs),
        dataset_ok(rs),
        forall|k: int| 0 <= k < old.len() ==> detail_fits(#[trigger] old[k], rec),
    ensures
        dataset_ok(rs.push(rec)),
{
    let rs2 = rs.push(rec);
    assert forall|a: int, b: int| 0 <= a < b < rs2.len() implies records_compatible(rs2[a], rs2[b]) by {
        assert(rs2[a] == rs[a]);
        if b < rs.len() {
            assert(rs2[b] == rs[b]);
        } else {
            assert(has_detail_for(old, rs[a]));
            let k = choose|k: int| 0 <= k < old.len() && detail_of(#[trigger] old[k], rs[a]);
            assert(detail_fits(old[k], rec));
            assert(old[k].txids@ == rs[a].txids@);
        }
    }
}

/// Replacing the block at a record's height by the record's block keeps the
/// store well formed.
#[verifier::spinoff_prover]
proof fn lemma_replace_wf(old: Seq<BlockDetail>, d: BlockDetail, i: int, rec: BlockRecord)
    requires
        store_wf(old),
        0 <= i < old.len(),
        old[i].summary.height == rec.height,
        detail_of(d, rec),
        forall|k: int| 0 <= k < old.len() ==> fits_unless_same_height(#[trigger] old[k], rec),
    ensures
        store_wf(old.update(i, d)),
{
    let s = old.update(i, d);
    assert forall|k: int| 0 <= k < old.len() && k != i implies details_compatible(#[trigger] old[k], d)
        && details_compatible(d, old[k]) by {
        assert(details_compatible(old[k], old[i]));
        assert(fits_unless_same_height(old[k], rec));
        assert(d.txids@ == rec.txids@);
    }
    assert forall|a: int, b: int| 0 <= a < b < s.len() implies s[a].summary.height
        > s[b].summary.height by {
        assert(s[a].summary.height == old[a].summary.height);
        assert(s[b].summary.height == old[b].summary.height);
    }
    assert forall|a: int, b: int| 0 <= a < s.len() && 0 <= b < s.len() && a != b implies details_compatible(
        s[a],
        s[b],
    ) by {
        if a != i && b != i {
            assert(s[a] == old[a] && s[b] == old[b]);
        }
    }
    assert forall|k: int| 0 <= k < s.len() implies (#[trigger] s[k]).proof_url@ == crate::text::proof_url_spec(
        s[k].summary.height as nat,
    ) by {
        if k != i {
            assert(s[k] == old[k]);
        }
    }
}

/// In a store that holds a consistent dataset, the block at a record's height
/// is that record's block.
proof fn lemma_height_names_record(s: Seq<BlockDetail>, rs: Seq<BlockRecord>, j: int, k: int)
    requires
        dataset_ok(rs),
        represents(s, rs),
        0 <= j < rs.len(),
        0 <= k < s.len(),
        s[k].summary.height == rs[j].height,
    ensures
        detail_of(s[k], rs[j]),
{
    assert(has_record_for(rs, s[k]));
    let jk = choose|jj: int| 0 <= jj < rs.len() && detail_of(s[k], #[trigger] rs[jj]);
    if jk != j {
        if jk < j {
            assert(records_compatible(rs[jk], rs[j]));
        } else {
            assert(records_compatible(rs[j], rs[jk]));
        }
    }
}

/// Upserting a record of a consistent dataset into a store that holds that
/// dataset succeeds.
#[verifier::spinoff_prover]
proof fn lemma_reseed_can(s: Seq<BlockDetail>, rs: Seq<BlockRecord>, j: int)
    requires
        store_wf(s),
        dataset_ok(rs),
        represents(s, rs),
        0 <= j < rs.len(),
    ensures
        can_upsert(s, rs[j]),
        has_height(s, rs[j].height),
{
    let r = rs[j];
    assert(has_detail_for(s, rs[j]));
    let kj = choose|k: int| 0 <= k < s.len() && detail_of(#[trigger] s[k], rs[j]);
    assert(s[kj].summary.height == r.height);
    assert forall|k: int| 0 <= k < s.len() implies fits_unless_same_height(#[trigger] s[k], r) by {
        if s[k].summary.height != r.height {
            assert(has_record_for(rs, s[k]));
            let jk = choose|jj: int| 0 <= jj < rs.len() && detail_of(s[k], #[trigger] rs[jj]);
            assert(jk != j);
            if jk < j {
                assert(records_compatible(rs[jk], rs[j]));
            } else {
                assert(records_compatible(rs[j], rs[jk]));
            }
            assert(s[k].txids@ == rs[jk].txids@);
        }
    }
}

/// Upserting a record of a consistent dataset into a store that holds that
/// dataset changes no block summary.
#[verifier::spinoff_prover]
proof fn lemma_reseed_summaries(s: Seq<BlockDetail>, s2: Seq<BlockDetail>, rs: Seq<BlockRecord>, j: int)
    requires
        dataset_ok(rs),
        represents(s, rs),
        0 <= j < rs.len(),
        has_height(s, rs[j].height),
        upserted(s, s2, rs[j]),
    ensures
        summaries(s2) == summaries(s),
{
    let r = rs[j];
    assert forall|k: int| 0 <= k < s.len() implies (#[trigger] s2[k]).summary == s[k].summary by {
        if s[k].summary.height == r.height {
            assert(detail_of(s2[k], r));
            lemma_height_names_record(s, rs, j, k);
        }
    }
    assert(summaries(s2) =~= summaries(s));
}

/// Upserting a record of a consistent dataset into a store that holds that
/// dataset keeps the store holding it.
#[verifier::spinoff_prover]
proof fn lemma_reseed_represents(s: Seq<BlockDetail>, s2: Seq<BlockDetail>, rs: Seq<BlockRecord>, j: int)
    requires
        dataset_ok(rs),
        represents(s, rs),
        0 <= j < rs.len(),
        has_height(s, rs[j].height),
        upserted(s, s2, rs[j]),
    ensures
        represents(s2, rs),
{
    let r = rs[j];
    assert forall|jj: int| 0 <= jj < rs.len() implies has_detail_for(s2, #[trigger] rs[jj]) by {
        assert(has_detail_for(s, rs[jj]));
        let k = choose|k: int| 0 <= k < s.len() && detail_of(#[trigger] s[k], rs[jj]);
        if s[k].summary.height == r.height {
            lemma_same_height_same_record(rs, jj, j);
            assert(detail_of(s2[k], rs[jj]));
        } else {
            assert(s2[k] == s[k]);
        }
    }
    assert forall|k: int| 0 <= k < s2.len() implies has_record_for(rs, #[trigger] s2[k]) by {
        if s[k].summary.height == r.height {
            assert(detail_of(s2[k], rs[j]));
        } else {
            assert(s2[k] == s[k]);
            assert(has_record_for(rs, s[k]));
        }
    }
}

/// In a consistent dataset a height names one record.
proof fn lemma_same_height_same_record(rs: Seq<BlockRecord>, a: int, b: int)
    requires
        dataset_ok(rs),
        0 <= a < rs.len(),
        0 <= b < rs.len(),
        rs[a].height == rs[b].height,
    ensures
        a == b,
{
    if a < b {
        assert(records_compatible(rs[a], rs[b]));
    } else if b < a {
        assert(records_compatible(rs[b], rs[a]));
    }
}

/// One step of seeding: what the upsert of the next record keeps true of the
/// store in the two seeding situations.
#[verifier::spinoff_prover]
proof fn lemma_seed_step(
    s0: Seq<BlockDetail>,
    before: Seq<BlockDetail>,
    after: Seq<BlockDetail>,
    rs: Seq<BlockRecord>,
    i: int,
    ok: bool,
)
    requires
        store_wf(before),
        0 <= i < rs.len(),
        dataset_ok(rs) && s0.len() == 0 && rs.len() <= u32::MAX ==> represents(before, rs.subrange(0, i)),
        dataset_ok(rs) && represents(s0, rs) ==> represents(before, rs) && summaries(before) == summaries(s0),
        ok <==> can_upsert(before, rs[i]),
        ok ==> upserted(before, after, rs[i]),
    ensures
        dataset_ok(rs) && s0.len() == 0 && rs.len() <= u32::MAX ==> ok && represents(after, rs.subrange(0, i + 1)),
        dataset_ok(rs) && represents(s0, rs) ==> ok && represents(after, rs) && summaries(after) == summaries(s0),
{
    if dataset_ok(rs) && s0.len() == 0 && rs.len() <= u32::MAX {
        lemma_fresh_step(before, after, rs, i);
    }
    if dataset_ok(rs) && represents(s0, rs) {
        lemma_reseed_can(before, rs, i);
        lemma_reseed_summaries(before, after, rs, i);
        lemma_reseed_represents(before, after, rs, i);
    }
}

/// Upserting the next record of a consistent dataset into a store that holds
/// the records before it succeeds and extends the store by that record.
#[verifier::spinoff_prover]
proof fn lemma_fresh_step(s: Seq<BlockDetail>, s2: Seq<BlockDetail>, rs: Seq<BlockRecord>, i: int)
    requires
        store_wf(s),
        dataset_ok(rs),
        represents(s, rs.subrange(0, i)),
        0 <= i < rs.len(),
        rs.len() <= u32::MAX,
    ensures
        can_upsert(s, rs[i]),
        !has_height(s, rs[i].height),
        upserted(s, s2, rs[i]) ==> represents(s2, rs.subrange(0, i + 1)),
{
    let r = rs[i];
    let pre = rs.subrange(0, i);
    assert forall|k: int| 0 <= k < s.len() implies detail_fits(#[trigger] s[k], r) by {
        assert(has_record_for(pre, s[k]));
        let jk = choose|jj: int| 0 <= jj < pre.len() && detail_of(s[k], #[trigger] pre[jj]);
        assert(pre[jk] == rs[jk]);
        assert(records_compatible(rs[jk], rs[i]));
        assert(s[k].txids@ == rs[jk].txids@);
    }
    if has_height(s, r.height) {
        let k = choose|k: int| 0 <= k < s.len() && s[k].summary.height == r.height;
        assert(detail_fits(s[k], r));
    }
    assert forall|k: int| 0 <= k < s.len() implies fits_unless_same_height(#[trigger] s[k], r) by {
        assert(detail_fits(s[k], r));
    }
    if upserted(s, s2, r) {
        let (p, d) = choose|p: int, d: BlockDetail|
            #![trigger s.insert(p, d)]
            0 <= p <= s.len() && detail_of(d, r) && s2 == s.insert(p, d);
        lemma_place_represents(s, d, p, pre, r);
        assert(rs.subrange(0, i + 1) =~= pre.push(r));
    }
}

/// An immutable block store built once from a dataset: the blocks ordered by
/// height, highest first.
#[derive(Debug)]
pub struct MockStore {
    blocks: Vec<BlockDetail>,
}

impl View for MockStore {
    type V = Seq<BlockDetail>;

    closed spec fn view(&self) -> Seq<BlockDetail> {
        self.blocks@
    }
}

impl MockStore {
    /// The store's invariant.
    pub open spec fn wf(&self) -> bool {
        store_wf(self@)
    }

    /// Builds the store from a dataset. Fails with a store fault when two
    /// records share a height, a hash or a transaction id, or when the dataset
    /// has more records than a `u32` counts.
    pub fn from_records(records: &Vec<BlockRecord>) -> (r: Result<MockStore, AppError>)
        ensures
            r is Ok <==> (dataset_ok(records@) && records@.len() <= u32::MAX),
            r matches Ok(st) ==> st.wf() && represents(st@, records@),
            r matches Err(e) ==> e is Store,
    {
        if records.len() > 4294967295usize {
            return Err(AppError::Store(String::from_str("dataset too large")));
        }
        let mut blocks: Vec<BlockDetail> = Vec::new();
        let mut i: usize = 0;
        assert(records@.subrange(0, 0) =~= Seq::<BlockRecord>::empty());
        while i < records.len()
            invariant
                i <= records@.len(),
                records@.len() <= u32::MAX,
                store_wf(blocks@),
                represents(blocks@, records@.subrange(0, i as int)),
                dataset_ok(records@.subrange(0, i as int)),
            decreases records@.len() - i,
        {
            let rec = &records[i];
            let ghost rs = records@.subrange(0, i as int);
            match find_conflict(&blocks, rec) {
                Some(k) => {
                    proof {
                        assert(has_record_for(rs, blocks@[k as int]));
                        let j = choose|j: int|
                            0 <= j < rs.len() && detail_of(blocks@[k as int], #[trigger] rs[j]);
                        assert(rs[j] == records@[j]);
                        assert(blocks@[k as int].txids@ == records@[j].txids@);
                        assert(!records_compatible(records@[j], records@[i as int]));
                    }
                    return Err(AppError::Store(String::from_str("conflicting block records")));
                },
                None => {},
            }
            let d = rec.to_detail();
            let p = insert_position(&blocks, rec.height);
            let ghost old_blocks = blocks@;
            blocks.insert(p, d);
            proof {
                lemma_place_wf(old_blocks, d, p as int, *rec);
                lemma_place_represents(old_blocks, d, p as int, rs, *rec);
                lemma_place_dataset(old_blocks, rs, *rec);
                assert(records@.subrange(0, i + 1) =~= rs.push(*rec));
            }
            i = i + 1;
        }
        assert(records@.subrange(0, i as int) =~= records@);
        Ok(MockStore { blocks })
    }

    /// Index of the block at `height`, if any.
    fn position_of_height(&self, height: u32) -> (r: Option<usize>)
        requires
            self.wf(),
        ensures
            match r {
                Some(i) => i < self@.len() && self@[i as int].summary.height == height && block_at_height(
                    self@,
                    height,
                ) == Some(self@[i as int]),
                None => !has_height(self@, height) && block_at_height(self@, height) is None,
            },
    {
        let mut i: usize = 0;
        while i < self.blocks.len()
            invariant
                i <= self@.len(),
                self@ == self.blocks@,
                self.wf(),
                forall|j: int| 0 <= j < i ==> (#[trigger] self@[j]).summary.height != height,
            decreases self@.len() - i,
        {
            if self.blocks[i].summary.height == height {
                proof {
                    assert(has_height(self@, height));
                    let j = choose|j: int| 0 <= j < self@.len() && self@[j].summary.height == height;
                    if j != i {
                        assert(details_compatible(self@[i as int], self@[j]));
                    }
                }
                return Some(i);
            }
            i = i + 1;
        }
        None
    }

    /// Index of the block with hash `key`, if any.
    fn position_of_hash(&self, key: &String) -> (r: Option<usize>)
        requires
            self.wf(),
        ensures
            match r {
                Some(i) => i < self@.len() && self@[i as int].summary.hash@ == key@ && block_with_hash(
                    self@,
                    key@,
                ) == Some(self@[i as int]),
                None => !has_hash(self@, key@) && block_with_hash(self@, key@) is None,
            },
    {
        let mut i: usize = 0;
        while i < self.blocks.len()
            invariant
                i <= self@.len(),
                self@ == self.blocks@,
                self.wf(),
                forall|j: int| 0 <= j < i ==> (#[trigger] self@[j]).summary.hash@ != key@,
            decreases self@.len() - i,
        {
            if self.blocks[i].summary.hash == *key {
                proof {
                    assert(has_hash(self@, key@));
                    let j = choose|j: int| 0 <= j < self@.len() && self@[j].summary.hash@ == key@;
                    if j != i {
                        assert(details_compatible(self@[i as int], self@[j]));
                    }
                }
                return Some(i);
            }
            i = i + 1;
        }
        None
    }

    /// Height of the block that lists the transaction `key`, if any.
    fn height_of_txid(&self, key: &String) -> (r: Option<u32>)
        requires
            self.wf(),
        ensures
            r == tx_height(self@, key@),
    {
        let mut i: usize = 0;
        while i < self.blocks.len()
            invariant
                i <= self@.len(),
                self@ == self.blocks@,
                self.wf(),
                forall|i2: int, k2: int|
                    0 <= i2 < i && 0 <= k2 < self@[i2].txids@.len() ==> #[trigger] self@[i2].txids@[k2]@
                        != key@,
            decreases self@.len() - i,
        {
            let ids = &self.blocks[i].txids;
            let mut k: usize = 0;
            while k < ids.len()
                invariant
                    i < self@.len(),
                    self.wf(),
                    k <= ids@.len(),
                    ids@ == self@[i as int].txids@,
                    forall|k2: int| 0 <= k2 < k ==> (#[trigger] ids@[k2])@ != key@,
                decreases ids@.len() - k,
            {
                if ids[k] == *key {
                    proof {
                        assert(has_txid(self@, key@)) by {
                            assert(self@[i as int].txids@[k as int]@ == key@);
                        }
                        let (i2, k2) = choose|i2: int, k2: int|
                            0 <= i2 < self@.len() && 0 <= k2 < self@[i2].txids@.len()
                                && self@[i2].txids@[k2]@ == key@;
                        if i2 != i {
                            assert(details_compatible(self@[i as int], self@[i2]));
                        }
                    }
                    return Some(self.blocks[i].summary.height);
                }
                k = k + 1;
            }
            i = i + 1;
        }
        None
    }

    /// One page of blocks, highest first: without a cursor from the top, with
    /// one from the first block below it; at most the clamped limit of them.
    /// `total` counts the whole store; a full page has a next cursor, the
    /// height of its last block.
    pub fn get_blocks(&self, limit: u32, cursor: Option<u32>) -> (r: BlocksResponse)
        requires
            self.wf(),
        ensures
            response_of(r, page_spec(self@, limit, cursor), limit, self@.len() as u32),
    {
        let n = self.blocks.len();
        let mut st: usize = 0;
        match cursor {
            Some(c) => {
                while st < n && self.blocks[st].summary.height >= c
                    invariant
                        st <= n,
                        n == self.blocks@.len(),
                        forall|j: int| 0 <= j < st ==> (#[trigger] self.blocks@[j]).summary.height >= c,
                    decreases n - st,
                {
                    st = st + 1;
                }
                proof {
                    lemma_start_of_at(self.blocks@, c, st as int);
                }
            },
            None => {},
        }
        let page = clamp_limit(limit) as usize;
        let en: usize = if n - st > page {
            st + page
        } else {
            n
        };
        let mut out: Vec<BlockSummary> = Vec::new();
        let mut i: usize = st;
        assert(self.blocks@.subrange(st as int, st as int) =~= Seq::<BlockDetail>::empty());
        assert(summaries(Seq::<BlockDetail>::empty()) =~= Seq::<BlockSummary>::empty());
        while i < en
            invariant
                st <= i <= en <= n,
                n == self.blocks@.len(),
                out@ == summaries(self.blocks@.subrange(st as int, i as int)),
            decreases en - i,
        {
            out.push(self.blocks[i].summary.copied());
            proof {
                assert(summaries(self.blocks@.subrange(st as int, i + 1)) =~= summaries(
                    self.blocks@.subrange(st as int, i as int),
                ).push(self.blocks@[i as int].summary));
            }
            i = i + 1;
        }
        finish_page(out, limit, n as u32)
    }

    /// The block at `height`, or `BlockNotFound` carrying the height in
    /// decimal.
    pub fn get_block_by_height(&self, height: u32) -> (r: Result<&BlockDetail, AppError>)
        requires
            self.wf(),
        ensures
            match r {
                Ok(d) => block_at_height(self@, height) == Some(*d),
                Err(e) => block_at_height(self@, height) is None && (e matches AppError::BlockNotFound(m)
                    && m@ == decimal_chars(height as nat)),
            },
    {
        match self.position_of_height(height) {
            Some(i) => Ok(&self.blocks[i]),
            None => Err(AppError::BlockNotFound(decimal_string(height))),
        }
    }

    /// The block whose hash is `hash`, or `BlockNotFound` carrying the hash.
    pub fn get_block_by_hash(&self, hash: &str) -> (r: Result<&BlockDetail, AppError>)
        requires
            self.wf(),
        ensures
            match r {
                Ok(d) => block_with_hash(self@, hash@) == Some(*d),
                Err(e) => block_with_hash(self@, hash@) is None && (e matches AppError::BlockNotFound(m)
                    && m@ == hash@),
            },
    {
        let key = hash.to_owned();
        match self.position_of_hash(&key) {
            Some(i) => Ok(&self.blocks[i]),
            None => Err(AppError::BlockNotFound(key)),
        }
    }

    /// Whether a transaction is listed, and at which height; never an error.
    pub fn get_transaction_status(&self, txid: &str) -> (r: Result<TransactionStatus, AppError>)
        requires
            self.wf(),
        ensures
            r matches Ok(st) && st.included == (tx_height(self@, txid@) is Some) && st.block_height
                == tx_height(self@, txid@),
    {
        let key = txid.to_owned();
        Ok(TransactionStatus::from_lookup(self.height_of_txid(&key)))
    }

    /// Whether a header hash is in the chain, and at which height; never an
    /// error.
    pub fn get_header_status(&self, hash: &str) -> (r: Result<HeaderStatus, AppError>)
        requires
            self.wf(),
        ensures
            r matches Ok(st) && st.in_chain == (header_height(self@, hash@) is Some) && st.block_height
                == header_height(self@, hash@),
    {
        let key = hash.to_owned();
        let found = match self.position_of_hash(&key) {
            Some(i) => Some(self.blocks[i].summary.height),
            None => None,
        };
        Ok(HeaderStatus::from_lookup(found))
    }

    /// Whether a block exists under an identifier: a height when the text reads
    /// as a `u32`, else a hash.
    pub fn block_exists_by_identifier(&self, identifier: &str) -> (r: bool)
        requires
            self.wf(),
        ensures
            r == match parse_u32_spec(identifier.spec_bytes()) {
                Some(h) => has_height(self@, h),
                None => has_hash(self@, identifier@),
            },
    {
        match parse_height(identifier) {
            Some(h) => self.position_of_height(h).is_some(),
            None => {
                let key = identifier.to_owned();
                self.position_of_hash(&key).is_some()
            },
        }
    }

    /// The proof artifact of the block at `height`, given what reading its
    /// artifact gave (`None` when there is none or it cannot be read):
    /// `BlockNotFound` for an unknown block, else `ProofNotFound` without
    /// artifact bytes, else the bytes.
    pub fn get_proof_file(&self, height: u32, artifact: Option<Vec<u8>>) -> (r: Result<Vec<u8>, AppError>)
        requires
            self.wf(),
        ensures
            !has_height(self@, height) ==> (r matches Err(AppError::BlockNotFound(m)) && m@
                == decimal_chars(height as nat)),
            has_height(self@, height) ==> match artifact {
                Some(b) => r == Ok::<Vec<u8>, AppError>(b),
                None => r matches Err(AppError::ProofNotFound(m)) && m@ == decimal_chars(height as nat),
            },
    {
        let known = self.position_of_height(height).is_some();
        match proof_access(height, known, artifact.is_some()) {
            Err(e) => Err(e),
            Ok(()) => proof_payload(height, artifact),
        }
    }
    /// An empty store.
    pub fn new() -> (r: MockStore)
        ensures
            r.wf(),
            r@.len() == 0,
    {
        MockStore { blocks: Vec::new() }
    }

    /// Upserts one record: the block at its height, if any, is replaced in
    /// place; otherwise its block is inserted in height order. Fails with a
    /// store fault, changing nothing, when a block of another height has the
    /// record's hash or one of its transaction ids, or when the count is full.
    pub fn insert_block(&mut self, record: &BlockRecord) -> (r: Result<(), AppError>)
        requires
            old(self).wf(),
        ensures
            final(self).wf(),
            r is Ok <==> can_upsert(old(self)@, *record),
            r is Ok ==> upserted(old(self)@, final(self)@, *record),
            r matches Err(e) ==> final(self)@ == old(self)@ && e is Store,
    {
        let found = self.position_of_height(record.height);
        let mut k: usize = 0;
        while k < self.blocks.len()
            invariant
                k <= self@.len(),
                self@ == self.blocks@,
                self.wf(),
                forall|j: int| 0 <= j < k ==> fits_unless_same_height(#[trigger] self@[j], *record),
            decreases self@.len() - k,
        {
            if self.blocks[k].summary.height != record.height && !fits(&self.blocks[k], record) {
                return Err(AppError::Store(String::from_str("conflicting block record")));
            }
            k = k + 1;
        }
        match found {
            Some(i) => {
                let d = record.to_detail();
                let ghost old_s = self@;
                self.blocks.set(i, d);
                proof {
                    lemma_replace_wf(old_s, d, i as int, *record);
                    assert forall|j: int| 0 <= j < old_s.len() && (#[trigger] old_s[j]).summary.height
                        == record.height implies j == i by {
                        if j != i {
                            assert(details_compatible(old_s[j], old_s[i as int]));
                        }
                    }
                }
                Ok(())
            },
            None => {
                if self.blocks.len() >= 4294967295usize {
                    return Err(AppError::Store(String::from_str("block store is full")));
                }
                let d = record.to_detail();
                proof {
                    assert forall|j: int| 0 <= j < self@.len() implies detail_fits(#[trigger] self@[j], *record) by {
                        assert(fits_unless_same_height(self@[j], *record));
                        assert(self@[j].summary.height != record.height);
                    }
                }
                let p = insert_position(&self.blocks, record.height);
                let ghost old_s = self@;
                self.blocks.insert(p, d);
                proof {
                    lemma_place_wf(old_s, d, p as int, *record);
                    assert(self@ == old_s.insert(p as int, d));
                }
                Ok(())
            },
        }
    }

    /// Upserts the records in order, stopping at the first that fails (those
    /// before it stay). A consistent dataset seeds an empty store into one
    /// that holds exactly it; seeded again into a store that holds it, it
    /// changes no block summary and so no listing.
    pub fn seed_data(&mut self, records: &Vec<BlockRecord>) -> (r: Result<(), AppError>)
        requires
            old(self).wf(),
        ensures
            final(self).wf(),
            dataset_ok(records@) && old(self)@.len() == 0 && records@.len() <= u32::MAX ==> r is Ok
                && represents(final(self)@, records@),
            dataset_ok(records@) && represents(old(self)@, records@) ==> r is Ok && represents(
                final(self)@,
                records@,
            ) && summaries(final(self)@) == summaries(old(self)@),
            r matches Err(e) ==> e is Store,
    {
        let ghost s0 = self@;
        let mut i: usize = 0;
        assert(records@.subrange(0, 0) =~= Seq::<BlockRecord>::empty());
        while i < records.len()
            invariant
                self.wf(),
                s0 == old(self)@,
                i <= records@.len(),
                dataset_ok(records@) && s0.len() == 0 && records@.len() <= u32::MAX ==> represents(
                    self@,
                    records@.subrange(0, i as int),
                ),
                dataset_ok(records@) && represents(s0, records@) ==> represents(self@, records@)
                    && summaries(self@) == summaries(s0),
            decreases records@.len() - i,
        {
            let ghost before = self@;
            let res = self.insert_block(&records[i]);
            proof {
                lemma_seed_step(s0, before, self@, records@, i as int, res is Ok);
            }
            match res {
                Err(e) => {
                    return Err(e);
                },
                Ok(()) => {},
            }
            i = i + 1;
        }
        proof {
            assert(records@.subrange(0, i as int) =~= records@);
        }
        Ok(())
    }
}

} // verus!
