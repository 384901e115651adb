use raito_proving_service::error::AppError;
use raito_proving_service::model::BlockRecord;
use raito_proving_service::store::MockStore;

fn hex_of(c: char) -> String {
    std::iter::repeat(c).take(64).collect()
}

fn record(height: u32, hash: String, txids: Vec<String>) -> BlockRecord {
    BlockRecord {
        height,
        hash,
        prev_hash: hex_of('0'),
        merkle_root: hex_of('9'),
        bits: 7,
        nonce: height,
        tx_count: txids.len() as u32,
        total_fees_bits: 1.5f64.to_bits(),
        timestamp: -5,
        verified: false,
        txids,
    }
}

fn listing(store: &MockStore) -> String {
    format!("{:?}", store.get_blocks(50, None))
}

#[test]
fn seeding_twice_keeps_listing() {
    let records = vec![
        record(3, hex_of('c'), vec![hex_of('1')]),
        record(1, hex_of('a'), vec![]),
        record(2, hex_of('b'), vec![hex_of('2'), hex_of('3')]),
    ];
    let mut store = MockStore::new();
    store.seed_data(&records).unwrap();
    let once = listing(&store);
    store.seed_data(&records).unwrap();
    assert_eq!(listing(&store), once);
    let heights: Vec<u32> = store.get_blocks(50, None).blocks.iter().map(|b| b.height).collect();
    assert_eq!(heights, vec![3, 2, 1]);
}

#[test]
fn inserted_txids_keep_positions() {
    let mut store = MockStore::new();
    store.insert_block(&record(10, hex_of('d'), vec!["aa".repeat(32), "bb".repeat(32)])).unwrap();
    let detail = store.get_block_by_height(10).unwrap();
    assert_eq!(detail.txids, vec!["aa".repeat(32), "bb".repeat(32)]);
    assert_eq!(detail.txids.iter().position(|t| *t == "aa".repeat(32)), Some(0));
    assert_eq!(detail.txids.iter().position(|t| *t == "bb".repeat(32)), Some(1));
    assert_eq!(store.get_transaction_status(&"bb".repeat(32)).unwrap().block_height, Some(10));
}

#[test]
fn insert_replaces_same_height() {
    let mut store = MockStore::new();
    store.insert_block(&record(5, hex_of('a'), vec![hex_of('1')])).unwrap();
    store.insert_block(&record(5, hex_of('b'), vec![hex_of('2')])).unwrap();
    assert_eq!(store.get_block_by_height(5).unwrap().summary.hash, hex_of('b'));
    assert!(matches!(store.get_block_by_hash(&hex_of('a')), Err(AppError::BlockNotFound(_))));
    assert!(!store.get_transaction_status(&hex_of('1')).unwrap().included);
    assert_eq!(store.get_blocks(10, None).total, 1);
}

#[test]
fn insert_refuses_conflicts_and_keeps_state() {
    let mut store = MockStore::new();
    store.insert_block(&record(1, hex_of('a'), vec![hex_of('1')])).unwrap();
    let before = listing(&store);
    assert!(matches!(store.insert_block(&record(2, hex_of('a'), vec![])), Err(AppError::Store(_))));
    assert!(matches!(
        store.insert_block(&record(2, hex_of('b'), vec![hex_of('1')])),
        Err(AppError::Store(_))
    ));
    assert_eq!(listing(&store), before);
}

#[test]
fn seeding_stops_at_failing_record() {
    let records = vec![
        record(1, hex_of('a'), vec![]),
        record(2, hex_of('a'), vec![]),
        record(3, hex_of('c'), vec![]),
    ];
    let mut store = MockStore::new();
    assert!(matches!(store.seed_data(&records), Err(AppError::Store(_))));
    let heights: Vec<u32> = store.get_blocks(50, None).blocks.iter().map(|b| b.height).collect();
    assert_eq!(heights, vec![1]);
}
