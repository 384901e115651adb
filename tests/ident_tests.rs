use raito_proving_service::error::AppError;
use raito_proving_service::facade::{
    get_block_by_identifier, get_blocks, get_header_status, get_transaction_status,
};
use raito_proving_service::ident::{
    classify_identifier, is_hex_id, parse_height, validate_header_hash, validate_txid,
    BlockIdentifier,
};
use raito_proving_service::model::{BlockRecord, BlocksQuery, DatabaseConfig, HealthStatus};
use raito_proving_service::page::{clamp_limit, finish_page};
use raito_proving_service::proof_access::{proof_access, proof_payload};
use raito_proving_service::store::MockStore;
use raito_proving_service::text::{decimal_string, proof_url};

fn hex_of(c: char) -> String {
    std::iter::repeat(c).take(64).collect()
}

fn store() -> MockStore {
    let mut records = Vec::new();
    for h in 0..30u32 {
        records.push(BlockRecord {
            height: h,
            hash: format!("{:064x}", h + 1000),
            prev_hash: format!("{:064x}", h + 999),
            merkle_root: hex_of('e'),
            bits: 1,
            nonce: h,
            tx_count: 1,
            total_fees_bits: 0,
            timestamp: h as i64,
            verified: true,
            txids: vec![format!("{:064x}", h + 5000)],
        });
    }
    MockStore::from_records(&records).unwrap()
}

#[test]
fn parses_decimal_heights() {
    assert_eq!(parse_height("0"), Some(0));
    assert_eq!(parse_height("869123"), Some(869123));
    assert_eq!(parse_height("+7"), Some(7));
    assert_eq!(parse_height("007"), Some(7));
    assert_eq!(parse_height("4294967295"), Some(4294967295));
    assert_eq!(parse_height("4294967296"), None);
    assert_eq!(parse_height("99999999999999999999"), None);
    assert_eq!(parse_height(""), None);
    assert_eq!(parse_height("+"), None);
    assert_eq!(parse_height("-1"), None);
    assert_eq!(parse_height(" 1"), None);
    assert_eq!(parse_height("1a"), None);
    for s in ["12", "+3", "", "x", "4294967296", "-0", "٣"] {
        assert_eq!(parse_height(s), s.parse::<u32>().ok());
    }
}

#[test]
fn recognises_hex_ids() {
    assert!(is_hex_id(&hex_of('0')));
    assert!(is_hex_id(&"aAbBcCdDeEfF0123".repeat(4)));
    assert!(!is_hex_id(&hex_of('g')));
    assert!(!is_hex_id(&"a".repeat(63)));
    assert!(!is_hex_id(&"a".repeat(65)));
    assert!(!is_hex_id(&format!("{}é", "a".repeat(62))));
}

#[test]
fn classifies_identifiers() {
    assert!(matches!(classify_identifier("42"), BlockIdentifier::Height(42)));
    match classify_identifier(&hex_of('a')) {
        BlockIdentifier::Hash(h) => assert_eq!(h, hex_of('a')),
        other => panic!("unexpected {:?}", other),
    }
    match classify_identifier("not-a-block") {
        BlockIdentifier::Invalid(t) => assert_eq!(t, "not-a-block"),
        other => panic!("unexpected {:?}", other),
    }
    let digits = "1".repeat(64);
    match classify_identifier(&digits) {
        BlockIdentifier::Hash(h) => assert_eq!(h, digits),
        other => panic!("unexpected {:?}", other),
    }
}

#[test]
fn validates_txids_and_header_hashes() {
    assert!(validate_txid(&hex_of('a')).is_ok());
    match validate_txid("abc") {
        Err(AppError::InvalidTransactionId(t)) => assert_eq!(t, "abc"),
        other => panic!("unexpected {:?}", other),
    }
    assert!(validate_header_hash(&hex_of('0')).is_ok());
    match validate_header_hash(&hex_of('z')) {
        Err(AppError::InvalidHeaderHash(t)) => assert_eq!(t, hex_of('z')),
        other => panic!("unexpected {:?}", other),
    }
}

#[test]
fn facade_dispatches_identifiers() {
    let store = store();
    assert_eq!(get_block_by_identifier(&store, "12").unwrap().summary.height, 12);
    let hash = format!("{:064x}", 1003);
    assert_eq!(get_block_by_identifier(&store, &hash).unwrap().summary.height, 3);
    assert!(matches!(get_block_by_identifier(&store, "31"), Err(AppError::BlockNotFound(_))));
    assert!(matches!(
        get_block_by_identifier(&store, &hex_of('f')),
        Err(AppError::BlockNotFound(_))
    ));
    assert!(matches!(
        get_block_by_identifier(&store, "xyz"),
        Err(AppError::InvalidBlockIdentifier(_))
    ));
}

#[test]
fn facade_validates_before_lookup() {
    let store = store();
    let tx = format!("{:064x}", 5004);
    let status = get_transaction_status(&store, &tx).unwrap();
    assert!(status.included);
    assert_eq!(status.block_height, Some(4));
    assert!(matches!(get_transaction_status(&store, "12"), Err(AppError::InvalidTransactionId(_))));
    let hash = format!("{:064x}", 1029);
    let status = get_header_status(&store, &hash).unwrap();
    assert!(status.in_chain);
    assert_eq!(status.block_height, Some(29));
    assert!(matches!(get_header_status(&store, "zz"), Err(AppError::InvalidHeaderHash(_))));
}

#[test]
fn query_defaults_to_twenty() {
    let store = store();
    let q = BlocksQuery::default();
    assert_eq!(q.limit, Some(20));
    assert_eq!(q.cursor, None);
    let page = get_blocks(&store, &q);
    assert_eq!(page.blocks.len(), 20);
    assert_eq!(page.next_cursor, Some(10));
    let q = BlocksQuery { limit: None, cursor: Some(5) };
    let page = get_blocks(&store, &q);
    assert_eq!(page.blocks.len(), 5);
    assert!(!page.has_next);
}

#[test]
fn clamps_and_finishes_pages() {
    assert_eq!(clamp_limit(0), 1);
    assert_eq!(clamp_limit(1), 1);
    assert_eq!(clamp_limit(37), 37);
    assert_eq!(clamp_limit(50), 50);
    assert_eq!(clamp_limit(1000), 50);
    let page = finish_page(Vec::new(), 0, 9);
    assert!(!page.has_next);
    assert_eq!(page.total, 9);
}

#[test]
fn proof_decisions() {
    assert!(matches!(proof_access(3, false, true), Err(AppError::BlockNotFound(_))));
    match proof_access(3, true, false) {
        Err(AppError::ProofNotFound(m)) => assert_eq!(m, "3"),
        other => panic!("unexpected {:?}", other),
    }
    assert!(proof_access(3, true, true).is_ok());
    assert_eq!(proof_payload(3, Some(vec![9])).unwrap(), vec![9]);
    assert!(matches!(proof_payload(3, None), Err(AppError::ProofNotFound(_))));
}

#[test]
fn formats_decimal_and_proof_paths() {
    assert_eq!(decimal_string(0), "0");
    assert_eq!(decimal_string(869123), "869123");
    assert_eq!(proof_url(869123), "/v1/blocks/869123/proof");
}

#[test]
fn config_and_health_values() {
    let c = DatabaseConfig::test_config();
    assert_eq!(c.database_url, "sqlite::memory:");
    assert_eq!(c.max_connections, 5);
    assert!(c.run_migrations);
    let d = DatabaseConfig::default();
    assert_eq!(d.database_url, "sqlite:raito_data/raito.db");
    assert_eq!(d.max_connections, 10);
    let h = HealthStatus::up(17);
    assert_eq!(h.status, "up");
    assert_eq!(h.timestamp, 17);
}

#[test]
fn error_kinds() {
    assert!(AppError::ProofNotFound("1".to_string()).is_not_found());
    assert!(!AppError::Store("x".to_string()).is_not_found());
    assert!(AppError::InvalidHeaderHash("x".to_string()).is_invalid_input());
    assert!(!AppError::Internal.is_invalid_input());
}
