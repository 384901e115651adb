use vstd::prelude::*;
use crate::text::proof_url_spec;

verus! {

/// Summary fields of a block. `total_fees_bits` holds the IEEE-754 bit pattern
/// of the (non-negative, floating) fee total, so the value travels unchanged.
#[derive(Debug, Clone)]
pub struct BlockSummary {
    pub height: u32,
    pub hash: String,
    pub tx_count: u32,
    pub total_fees_bits: u64,
    pub timestamp: i64,
    pub verified: bool,
}

impl BlockSummary {
    /// A field-for-field copy.
    pub fn copied(&self) -> (r: BlockSummary)
        ensures
            r == *self,
    {
        BlockSummary {
            height: self.height,
            hash: self.hash.clone(),
            tx_count: self.tx_count,
            total_fees_bits: self.total_fees_bits,
            timestamp: self.timestamp,
            verified: self.verified,
        }
    }
}

/// Full detail of a block, with its transaction ids in block order and the
/// path under which its proof artifact is served.
#[derive(Debug, Clone)]
pub struct BlockDetail {
    pub summary: BlockSummary,
    pub prev_hash: String,
    pub merkle_root: String,
    pub bits: u32,
    pub nonce: u32,
    pub txids: Vec<String>,
    pub proof_url: String,
}

/// One entry of a block dataset, as it is seeded or loaded.
#[derive(Debug, Clone)]
pub struct BlockRecord {
    pub height: u32,
    pub hash: String,
    pub prev_hash: String,
    pub merkle_root: String,
    pub bits: u32,
    pub nonce: u32,
    pub tx_count: u32,
    pub total_fees_bits: u64,
    pub timestamp: i64,
    pub verified: bool,
    pub txids: Vec<String>,
}

/// The transaction ids of a block, as a sequence of character sequences.
pub open spec fn txid_views(v: Seq<String>) -> Seq<Seq<char>> {
    v.map_values(|t: String| t@)
}

/// `d` is the detail that the record `r` stands for.
pub open spec fn detail_of(d: BlockDetail, r: BlockRecord) -> bool {
    &&& d.summary.height == r.height
    &&& d.summary.hash == r.hash
    &&& d.summary.tx_count == r.tx_count
    &&& d.summary.total_fees_bits == r.total_fees_bits
    &&& d.summary.timestamp == r.timestamp
    &&& d.summary.verified == r.verified
    &&& d.prev_hash == r.prev_hash
    &&& d.merkle_root == r.merkle_root
    &&& d.bits == r.bits
    &&& d.nonce == r.nonce
    &&& d.txids@ == r.txids@
    &&& d.proof_url@ == proof_url_spec(r.height as nat)
}

/// A copy of a list of strings.
pub fn copy_strings(v: &Vec<String>) -> (r: Vec<String>)
    ensures
        r@ == v@,
{
    let mut r: Vec<String> = Vec::new();
    let mut i: usize = 0;
    while i < v.len()
        invariant
            i <= v@.len(),
            r@ == v@.subrange(0, i as int),
        decreases v@.len() - i,
    {
        r.push(v[i].clone());
        i = i + 1;
    }
    assert(r@ =~= v@);
    r
}

impl BlockRecord {
    /// The block detail this record describes, with its proof path.
    pub fn to_detail(&self) -> (d: BlockDetail)
        ensures
            detail_of(d, *self),
    {
        BlockDetail {
            summary: BlockSummary {
                height: self.height,
                hash: self.hash.clone(),
                tx_count: self.tx_count,
                total_fees_bits: self.total_fees_bits,
                timestamp: self.timestamp,
                verified: self.verified,
            },
            prev_hash: self.prev_hash.clone(),
            merkle_root: self.merkle_root.clone(),
            bits: self.bits,
            nonce: self.nonce,
            txids: copy_strings(&self.txids),
            proof_url: crate::text::proof_url(self.height),
        }
    }
}

/// Outcome of a transaction-membership lookup.
#[derive(Debug, Clone, PartialEq, Eq, Structural)]
pub struct TransactionStatus {
    pub included: bool,
    pub block_height: Option<u32>,
}

/// Outcome of a header-membership lookup.
#[derive(Debug, Clone, PartialEq, Eq, Structural)]
pub struct HeaderStatus {
    pub in_chain: bool,
    pub block_height: Option<u32>,
}

impl TransactionStatus {
    /// The status of a transaction found at `found`, or not found.
    pub fn from_lookup(found: Option<u32>) -> (r: TransactionStatus)
        ensures
            r.included == found is Some,
            r.block_height == found,
    {
        TransactionStatus { included: found.is_some(), block_height: found }
    }
}

impl HeaderStatus {
    /// The status of a header found at `found`, or not found.
    pub fn from_lookup(found: Option<u32>) -> (r: HeaderStatus)
        ensures
            r.in_chain == found is Some,
            r.block_height == found,
    {
        HeaderStatus { in_chain: found.is_some(), block_height: found }
    }
}

/// Query parameters of a block listing.
#[derive(Debug, Clone, PartialEq, Eq, Structural)]
pub struct BlocksQuery {
    pub limit: Option<u32>,
    pub cursor: Option<u32>,
}

/// Page size used when a listing names none.
pub const DEFAULT_LIMIT: u32 = 20;

impl Default for BlocksQuery {
    fn default() -> (r: BlocksQuery)
        ensures
            r.limit == Some(DEFAULT_LIMIT),
            r.cursor is None,
    {
        BlocksQuery { limit: Some(DEFAULT_LIMIT), cursor: None }
    }
}

/// The page size a query asks for, before clamping.
pub open spec fn limit_or_default(q: BlocksQuery) -> u32 {
    match q.limit {
        Some(l) => l,
        None => DEFAULT_LIMIT,
    }
}

impl BlocksQuery {
    /// The page size this query asks for, before clamping.
    pub fn requested_limit(&self) -> (r: u32)
        ensures
            r == limit_or_default(*self),
    {
        match self.limit {
            Some(l) => l,
            None => DEFAULT_LIMIT,
        }
    }
}

/// Result of a health probe.
#[derive(Debug, Clone)]
pub struct HealthStatus {
    pub status: String,
    pub timestamp: i64,
}

impl HealthStatus {
    /// A healthy status taken at `timestamp`.
    pub fn up(timestamp: i64) -> (r: HealthStatus)
        ensures
            r.status@ == "up"@,
            r.timestamp == timestamp,
    {
        HealthStatus { status: String::from_str("up"), timestamp }
    }
}

/// One page of a block listing.
#[derive(Debug, Clone)]
pub struct BlocksResponse {
    pub blocks: Vec<BlockSummary>,
    pub total: u32,
    pub has_next: bool,
    pub next_cursor: Option<u32>,
}

/// Settings of the persistent store's connection.
#[derive(Debug, Clone)]
pub struct DatabaseConfig {
    pub database_url: String,
    pub max_connections: u32,
    pub run_migrations: bool,
}

impl DatabaseConfig {
    /// A private in-memory database with migrations run.
    pub fn test_config() -> (r: DatabaseConfig)
        ensures
            r.database_url@ == "sqlite::memory:"@,
            r.max_connections == 5,
            r.run_migrations,
    {
        DatabaseConfig {
            database_url: String::from_str("sqlite::memory:"),
            max_connections: 5,
            run_migrations: true,
        }
    }
}

impl Default for DatabaseConfig {
    fn default() -> (r: DatabaseConfig)
        ensures
            r.database_url@ == "sqlite:raito_data/raito.db"@,
            r.max_connections == 10,
            r.run_migrations,
    {
        DatabaseConfig {
            database_url: String::from_str("sqlite:raito_data/raito.db"),
            max_connections: 10,
            run_migrations: true,
        }
    }
}

} // verus!
