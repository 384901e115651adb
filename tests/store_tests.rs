use raito_proving_service::error::AppError;
use raito_proving_service::model::{BlockRecord, TransactionStatus, HeaderStatus};
use raito_proving_service::store::MockStore;

fn hex_of(c: char) -> String {
    std::iter::repeat(c).take(64).collect()
}

fn record(height: u32, hash: String, txids: Vec<String>) -> BlockRecord {
    BlockRecord {
        height,
        hash,
        prev_hash: hex_of('0'),
        merkle_root: hex_of('f'),
        bits: 386089497,
        nonce: 1234,
        tx_count: txids.len() as u32,
        total_fees_bits: 0.125f64.to_bits(),
        timestamp: 1_700_000_000 + height as i64,
        verified: height % 2 == 0,
        txids,
    }
}

fn fixture() -> MockStore {
    let records = vec![
        record(99, hex_of('b'), vec![hex_of('2')]),
        record(100, hex_of('a'), vec![hex_of('1'), hex_of('3')]),
        record(98, hex_of('c'), vec![]),
    ];
    MockStore::from_records(&records).unwrap()
}

#[test]
fn test_store_loading() {
    let store = fixture();
    assert!(!store.get_blocks(50, None).blocks.is_empty());
    assert!(store.get_block_by_hash(&hex_of('a')).is_ok());
}

#[test]
fn test_get_blocks_pagination() {
    let store = fixture();
    let response = store.get_blocks(2, None);
    assert_eq!(response.blocks.len(), 2);
    assert!(response.total > 0);
}

#[test]
fn test_get_block_by_height() {
    let store = fixture();
    let result = store.get_block_by_height(99);
    assert!(result.is_ok());
}

#[test]
fn test_transaction_status() {
    let store = fixture();
    let status = store.get_transaction_status(&hex_of('2')).unwrap();
    assert!(status.included);
    assert!(status.block_height.is_some());
}

#[test]
fn pages_follow_exclusive_cursor() {
    let store = fixture();
    let first = store.get_blocks(2, None);
    let heights: Vec<u32> = first.blocks.iter().map(|b| b.height).collect();
    assert_eq!(heights, vec![100, 99]);
    assert!(first.has_next);
    assert_eq!(first.next_cursor, Some(99));
    assert_eq!(first.total, 3);
    let second = store.get_blocks(2, Some(99));
    let heights: Vec<u32> = second.blocks.iter().map(|b| b.height).collect();
    assert_eq!(heights, vec![98]);
    assert!(!second.has_next);
    assert_eq!(second.next_cursor, None);
    assert_eq!(second.total, 3);
}

#[test]
fn cursor_page_is_below_cursor_and_descending() {
    let store = fixture();
    let page = store.get_blocks(50, Some(100));
    let heights: Vec<u32> = page.blocks.iter().map(|b| b.height).collect();
    assert_eq!(heights, vec![99, 98]);
    let page = store.get_blocks(50, Some(1000));
    let heights: Vec<u32> = page.blocks.iter().map(|b| b.height).collect();
    assert_eq!(heights, vec![100, 99, 98]);
    let page = store.get_blocks(50, Some(98));
    assert!(page.blocks.is_empty());
    assert!(!page.has_next);
}

#[test]
fn limits_are_clamped() {
    let mut records = Vec::new();
    for h in 0..120u32 {
        records.push(record(h, format!("{:064x}", h), vec![]));
    }
    let store = MockStore::from_records(&records).unwrap();
    assert_eq!(store.get_blocks(0, None).blocks.len(), 1);
    assert!(store.get_blocks(0, None).has_next);
    assert_eq!(store.get_blocks(1, None).blocks.len(), 1);
    assert_eq!(store.get_blocks(50, None).blocks.len(), 50);
    let big = store.get_blocks(1000, None);
    let fifty = store.get_blocks(50, None);
    assert_eq!(big.blocks.len(), 50);
    let a: Vec<u32> = big.blocks.iter().map(|b| b.height).collect();
    let b: Vec<u32> = fifty.blocks.iter().map(|b| b.height).collect();
    assert_eq!(a, b);
    assert_eq!(big.has_next, fifty.has_next);
    assert_eq!(big.next_cursor, Some(70));
    assert_eq!(fifty.next_cursor, Some(70));
    assert_eq!(big.total, 120);
}

#[test]
fn empty_store_lists_nothing() {
    let store = MockStore::from_records(&Vec::new()).unwrap();
    let page = store.get_blocks(20, None);
    assert!(page.blocks.is_empty());
    assert_eq!(page.total, 0);
    assert!(!page.has_next);
    assert_eq!(page.next_cursor, None);
}

#[test]
fn height_and_hash_give_same_detail() {
    let store = fixture();
    let by_height = store.get_block_by_height(100).unwrap();
    let by_hash = store.get_block_by_hash(&hex_of('a')).unwrap();
    assert_eq!(format!("{:?}", by_height), format!("{:?}", by_hash));
    assert_eq!(by_height.proof_url, "/v1/blocks/100/proof");
    assert_eq!(by_height.summary.total_fees_bits, 0.125f64.to_bits());
}

#[test]
fn txids_keep_their_order() {
    let records = vec![record(7, hex_of('d'), vec!["aa".repeat(32), "bb".repeat(32)])];
    let store = MockStore::from_records(&records).unwrap();
    let detail = store.get_block_by_height(7).unwrap();
    assert_eq!(detail.txids, vec!["aa".repeat(32), "bb".repeat(32)]);
    assert_eq!(detail.txids.iter().position(|t| *t == "aa".repeat(32)), Some(0));
    assert_eq!(detail.txids.iter().position(|t| *t == "bb".repeat(32)), Some(1));
}

#[test]
fn unknown_transaction_is_not_included() {
    let store = fixture();
    let status = store.get_transaction_status(&"deadbeef".repeat(8)).unwrap();
    assert_eq!(status, TransactionStatus { included: false, block_height: None });
    let status = store.get_transaction_status(&hex_of('3')).unwrap();
    assert_eq!(status, TransactionStatus { included: true, block_height: Some(100) });
}

#[test]
fn header_status_reports_height() {
    let store = fixture();
    let status = store.get_header_status(&hex_of('c')).unwrap();
    assert_eq!(status, HeaderStatus { in_chain: true, block_height: Some(98) });
    let status = store.get_header_status(&hex_of('e')).unwrap();
    assert_eq!(status, HeaderStatus { in_chain: false, block_height: None });
}

#[test]
fn numeric_identifier_never_tried_as_hash() {
    let records = vec![record(5, "42".to_string(), vec![])];
    let store = MockStore::from_records(&records).unwrap();
    assert!(!store.block_exists_by_identifier("42"));
    assert!(store.block_exists_by_identifier("5"));
    assert!(store.block_exists_by_identifier("+5"));
    let fixture = fixture();
    assert!(!fixture.block_exists_by_identifier("42"));
    assert!(fixture.block_exists_by_identifier(&hex_of('b')));
    assert!(!fixture.block_exists_by_identifier("zz"));
}

#[test]
fn missing_artifact_is_proof_not_found() {
    let store = fixture();
    match store.get_proof_file(100, None) {
        Err(AppError::ProofNotFound(m)) => assert_eq!(m, "100"),
        other => panic!("unexpected {:?}", other),
    }
    match store.get_proof_file(5, Some(vec![1, 2])) {
        Err(AppError::BlockNotFound(m)) => assert_eq!(m, "5"),
        other => panic!("unexpected {:?}", other),
    }
    assert_eq!(store.get_proof_file(99, Some(vec![1, 2, 3])).unwrap(), vec![1, 2, 3]);
}

#[test]
fn unknown_height_and_hash_are_not_found() {
    let store = fixture();
    match store.get_block_by_height(4294967295) {
        Err(AppError::BlockNotFound(m)) => assert_eq!(m, "4294967295"),
        other => panic!("unexpected {:?}", other),
    }
    match store.get_block_by_hash("nope") {
        Err(AppError::BlockNotFound(m)) => assert_eq!(m, "nope"),
        other => panic!("unexpected {:?}", other),
    }
}

#[test]
fn conflicting_datasets_are_refused() {
    let same_height = vec![record(1, hex_of('a'), vec![]), record(1, hex_of('b'), vec![])];
    assert!(matches!(MockStore::from_records(&same_height), Err(AppError::Store(_))));
    let same_hash = vec![record(1, hex_of('a'), vec![]), record(2, hex_of('a'), vec![])];
    assert!(matches!(MockStore::from_records(&same_hash), Err(AppError::Store(_))));
    let shared_tx = vec![
        record(1, hex_of('a'), vec![hex_of('1')]),
        record(2, hex_of('b'), vec![hex_of('2'), hex_of('1')]),
    ];
    assert!(matches!(MockStore::from_records(&shared_tx), Err(AppError::Store(_))));
}
