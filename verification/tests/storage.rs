use sabi::page::{page_after, FreeList};
use sabi::btree::{LeafNode, InternalNode, Node, NodeHeader};
use sabi::bytes::push_slice;
use sabi::engine::{
    create_composite_key, deserialize_mvcc_data, extract_key_from_composite,
    extract_key_from_composite_with_table, serialize_versions,
};
use sabi::error::DbError;
use sabi::keys::{find_child, insert_sorted};
use sabi::mvcc::{is_visible, MvccTable, RowVersion, TransactionManager, TxState};
use sabi::page::{Page, PageType, PAGE_MAGIC, PAGE_SIZE};
use sabi::tx::TxId;
use sabi::wal::{
    check_wal_header, committed_records, decode_length, deserialize_record, encode_frame,
    needs_sync, record_fits, serialize_record, verify_checksum, wal_header, WalRecord,
    WalRecordType,
};

#[test]
fn test_page_creation() {
    let page = Page::new(1, PageType::Data);

    assert_eq!(page.header.page_id, 1);
    assert_eq!(page.header.page_type, PageType::Data);
    assert_eq!(page.header.flags, 0);
    assert_eq!(page.header.lsn, 0);
    assert_eq!(page.header.payload_len, 0);
    assert!(page.payload.is_empty());
}

#[test]
fn test_page_serialize_deserialize_empty() {
    let page = Page::new(42, PageType::BTreeLeaf);

    let serialized = page.serialize().expect("Should serialize");
    assert_eq!(serialized.len(), PAGE_SIZE);

    assert_eq!(&serialized[0..4], PAGE_MAGIC);

    let deserialized = Page::deserialize(&serialized).expect("Should deserialize");

    assert_eq!(deserialized.header.page_id, 42);
    assert_eq!(deserialized.header.page_type, PageType::BTreeLeaf);
}

#[test]
fn test_page_serialize_deserialize_with_payload() {
    let mut page = Page::new(100, PageType::Data);
    page.payload = b"Hello, SabiDB!".to_vec();

    let serialized = page.serialize().expect("Should serialize");
    let deserialized = Page::deserialize(&serialized).expect("Should deserialize");

    assert_eq!(deserialized.payload, b"Hello, SabiDB!");
    assert_eq!(deserialized.header.page_id, 100);
}

#[test]
fn test_page_checksum_validation() {
    let mut page = Page::new(1, PageType::Data);
    page.payload = b"test data".to_vec();

    let mut serialized = page.serialize().expect("Should serialize");

    serialized[32] ^= 0xFF;

    let result = Page::deserialize(&serialized);
    assert!(result.is_err());
}

#[test]
fn test_page_invalid_magic() {
    let mut data = [0u8; PAGE_SIZE];
    data[0..4].copy_from_slice(b"XXXX");

    let result = Page::deserialize(&data);
    assert!(result.is_err());
}

#[test]
fn test_page_types() {
    let types = [
        (PageType::Free, 0u16),
        (PageType::Data, 1u16),
        (PageType::BTreeInternal, 2u16),
        (PageType::BTreeLeaf, 3u16),
    ];

    for (page_type, expected_value) in types {
        assert_eq!(page_type as u16, expected_value);

        let parsed: PageType = expected_value.try_into().expect("Should parse");
        assert_eq!(parsed, page_type);
    }
}

#[test]
fn test_page_type_invalid() {
    let result: Result<PageType, _> = 99u16.try_into();
    assert!(result.is_err());
}

#[test]
fn test_page_large_payload() {
    let mut page = Page::new(1, PageType::Data);
    let max_payload = PAGE_SIZE - 32;
    page.payload = vec![0xAB; max_payload];

    let serialized = page.serialize().expect("Should serialize");
    let deserialized = Page::deserialize(&serialized).expect("Should deserialize");

    assert_eq!(deserialized.payload.len(), max_payload);
    assert!(deserialized.payload.iter().all(|&b| b == 0xAB));
}

#[test]
fn test_page_payload_overflow() {
    let mut page = Page::new(1, PageType::Data);
    page.payload = vec![0u8; PAGE_SIZE];

    let result = page.serialize();
    assert!(result.is_err());
}

#[test]
fn page_header_fields_survive_a_round_trip() {
    let mut page = Page::new(7, PageType::BTreeInternal);
    page.header.flags = 0x0102;
    page.header.lsn = 0x1122334455667788;
    page.payload = vec![1, 2, 3];
    let bytes = page.serialize().expect("Should serialize");
    assert_eq!(&bytes[4..6], &[2, 0]);
    assert_eq!(&bytes[24..28], &[3, 0, 0, 0]);
    let back = Page::deserialize(&bytes).expect("Should deserialize");
    assert_eq!(back.header.flags, 0x0102);
    assert_eq!(back.header.lsn, 0x1122334455667788);
    assert_eq!(back.header.payload_len, 3);
    assert_eq!(back.payload, vec![1, 2, 3]);
}

#[test]
fn page_with_unknown_type_is_corrupt() {
    let page = Page::new(1, PageType::Data);
    let mut bytes = page.serialize().expect("Should serialize");
    bytes[4] = 9;
    match Page::deserialize(&bytes) {
        Err(DbError::Corruption(m)) => assert_eq!(m, "Unknown page type"),
        _ => panic!("expected corruption"),
    }
}

fn leaf(keys: &[&[u8]], values: &[u64], parent: Option<u64>, next: Option<u64>) -> Node {
    Node::Leaf(LeafNode {
        header: NodeHeader { is_leaf: true, key_count: keys.len() as u16, parent },
        next,
        keys: keys.iter().map(|k| k.to_vec()).collect(),
        values: values.to_vec(),
    })
}

#[test]
fn btree_leaf_round_trips_through_a_page() {
    let mut page = Page::new(3, PageType::Data);
    let node = leaf(&[b"a", b"bb"], &[10, 20], Some(9), Some(4));
    page.serialize_btree(&node).expect("Should serialize node");
    assert_eq!(page.header.page_type, PageType::BTreeLeaf);
    match page.deserialize_btree().expect("Should read node") {
        Node::Leaf(l) => {
            assert_eq!(l.header.key_count, 2);
            assert_eq!(l.header.parent, Some(9));
            assert_eq!(l.next, Some(4));
            assert_eq!(l.keys, vec![b"a".to_vec(), b"bb".to_vec()]);
            assert_eq!(l.values, vec![10, 20]);
        }
        _ => panic!("expected a leaf"),
    }
    assert_eq!(page.read_parent(), Some(9));
}

#[test]
fn btree_internal_node_round_trips() {
    let mut page = Page::new(5, PageType::Data);
    let node = Node::Internal(InternalNode {
        header: NodeHeader { is_leaf: false, key_count: 1, parent: None },
        keys: vec![b"m".to_vec()],
        children: vec![1, 2],
    });
    page.serialize_btree(&node).expect("Should serialize node");
    assert_eq!(page.header.page_type, PageType::BTreeInternal);
    match page.deserialize_btree().expect("Should read node") {
        Node::Internal(n) => {
            assert_eq!(n.keys, vec![b"m".to_vec()]);
            assert_eq!(n.children, vec![1, 2]);
            assert_eq!(n.header.parent, None);
        }
        _ => panic!("expected an internal node"),
    }
    assert_eq!(page.read_parent(), None);
    page.write_parent(77).expect("Should write parent");
    assert_eq!(page.read_parent(), Some(77));
}

#[test]
fn btree_read_of_a_data_page_fails() {
    let page = Page::new(1, PageType::Data);
    assert!(page.deserialize_btree().is_err());
    assert_eq!(page.read_parent(), None);
}

#[test]
fn find_child_and_insert_sorted() {
    let mut keys = vec![b"b".to_vec(), b"d".to_vec()];
    let mut values = vec![2u64, 4];
    assert_eq!(find_child(&keys, b"a"), 0);
    assert_eq!(find_child(&keys, b"b"), 1);
    assert_eq!(find_child(&keys, b"c"), 1);
    assert_eq!(find_child(&keys, b"z"), 2);
    insert_sorted(&mut keys, &mut values, b"c".to_vec(), 3);
    assert_eq!(keys, vec![b"b".to_vec(), b"c".to_vec(), b"d".to_vec()]);
    assert_eq!(values, vec![2, 3, 4]);
}

#[test]
fn wal_record_type_codes() {
    assert_eq!(WalRecordType::from_u8(1).ok(), Some(WalRecordType::Begin));
    assert_eq!(WalRecordType::from_u8(5).ok(), Some(WalRecordType::Abort));
    match WalRecordType::from_u8(9) {
        Err(DbError::Corruption(m)) => assert_eq!(m, "Unknown WAL record type 9"),
        _ => panic!("expected corruption"),
    }
}

#[test]
fn wal_put_record_round_trips() {
    let tx = TxId::new();
    let rec = WalRecord::Put { tx, table_id: 7, key: b"user:1".to_vec(), value: b"Alice".to_vec() };
    let payload = serialize_record(&rec);
    assert_eq!(payload[0], 2);
    assert!(record_fits(&payload));
    match deserialize_record(&payload).expect("Should read") {
        WalRecord::Put { tx: t, table_id, key, value } => {
            assert_eq!(t, tx);
            assert_eq!(table_id, 7);
            assert_eq!(key, b"user:1");
            assert_eq!(value, b"Alice");
        }
        _ => panic!("Expected Put record"),
    }
}

#[test]
fn wal_ids_are_stored_little_endian() {
    let tx: TxId = "00112233-4455-6677-8899-aabbccddeeff".parse().expect("Should parse");
    let payload = serialize_record(&WalRecord::Begin { tx });
    assert_eq!(
        payload,
        vec![1, 0x33, 0x22, 0x11, 0x00, 0x55, 0x44, 0x77, 0x66, 0x88, 0x99, 0xaa, 0xbb, 0xcc, 0xdd, 0xee, 0xff]
    );
}

#[test]
fn wal_frames_hold_length_payload_checksum() {
    let tx = TxId::new();
    let rec = WalRecord::Commit { tx };
    let frame = encode_frame(&rec);
    assert_eq!(frame.len(), 4 + 17 + 4);
    let len = decode_length(&frame[0..4]).expect("Should read length").expect("Should have length");
    assert_eq!(len, 17);
    let payload = &frame[4..21];
    let mut crc = [0u8; 4];
    crc.copy_from_slice(&frame[21..25]);
    assert!(verify_checksum(payload, u32::from_le_bytes(crc)).is_ok());
    assert!(verify_checksum(payload, u32::from_le_bytes(crc) ^ 1).is_err());
    assert!(needs_sync(&rec));
    assert!(!needs_sync(&WalRecord::Begin { tx }));
}

#[test]
fn wal_length_reads() {
    assert!(matches!(decode_length(&[]), Ok(None)));
    assert!(decode_length(&[1, 2]).is_err());
}

#[test]
fn wal_header_is_checked() {
    let header = wal_header();
    assert_eq!(header.len(), 11);
    assert_eq!(&header[0..7], b"SABIWAL");
    assert!(check_wal_header(&header).is_ok());
    let mut bad = header.clone();
    bad[7] = 2;
    match check_wal_header(&bad) {
        Err(DbError::Corruption(m)) => assert_eq!(m, "Unsupported WAL version 2"),
        _ => panic!("expected version error"),
    }
    bad[0] = b'X';
    match check_wal_header(&bad) {
        Err(DbError::Corruption(m)) => assert_eq!(m, "Invalid WAL magic"),
        _ => panic!("expected magic error"),
    }
}

#[test]
fn replay_keeps_only_committed_records() {
    let tx1 = TxId::from_timestamp(10, 0);
    let tx2 = TxId::from_timestamp(20, 0);
    let records = vec![
        WalRecord::Begin { tx: tx1 },
        WalRecord::Put { tx: tx1, table_id: 1, key: b"key1".to_vec(), value: b"value1".to_vec() },
        WalRecord::Begin { tx: tx2 },
        WalRecord::Put { tx: tx2, table_id: 1, key: b"key2".to_vec(), value: b"value2".to_vec() },
        WalRecord::Commit { tx: tx1 },
        WalRecord::Abort { tx: tx2 },
    ];
    let kept = committed_records(records);
    assert_eq!(kept.len(), 3);
    assert!(matches!(kept[0], WalRecord::Begin { .. }));
    assert!(matches!(kept[1], WalRecord::Put { .. }));
    assert!(matches!(kept[2], WalRecord::Commit { .. }));
    let again = committed_records(kept);
    assert_eq!(again.len(), 3);
}

#[test]
fn composite_keys() {
    let k = create_composite_key("users", b"alice");
    assert_eq!(k, b"users\0alice".to_vec());
    assert_eq!(extract_key_from_composite(&k), Some(&b"alice"[..]));
    assert_eq!(extract_key_from_composite_with_table(&k), Some((&b"users"[..], &b"alice"[..])));
    assert_eq!(extract_key_from_composite(b"nozero"), None);
    assert_eq!(extract_key_from_composite_with_table(b"\0key"), None);
    assert_eq!(extract_key_from_composite_with_table(b"table\0"), None);
}

#[test]
fn version_chains_round_trip_through_a_page() {
    let tx1 = TxId::from_timestamp(100, 0);
    let tx2 = TxId::from_timestamp(200, 0);
    let versions = vec![
        RowVersion { created_by: tx2, deleted_by: None, value: b"v2".to_vec() },
        RowVersion { created_by: tx1, deleted_by: Some(tx2), value: b"v1".to_vec() },
    ];
    let bytes = serialize_versions(&versions).expect("Should serialize");
    assert_eq!(&bytes[0..4], &[2, 0, 0, 0]);
    let mut page = Page::new(1, PageType::Data);
    push_slice(&mut page.payload, &bytes);
    let back = deserialize_mvcc_data(&page).expect("Should read");
    assert_eq!(back.len(), 2);
    assert_eq!(back[0].created_by, tx2);
    assert_eq!(back[0].deleted_by, None);
    assert_eq!(back[0].value, b"v2");
    assert_eq!(back[1].deleted_by, Some(tx2));
    page.payload.truncate(10);
    assert!(deserialize_mvcc_data(&page).is_err());
    page.payload.clear();
    assert!(deserialize_mvcc_data(&page).expect("Should read").is_empty());
}

#[test]
fn test_transaction_manager_begin() {
    let mut tm = TransactionManager::new();

    let tx = tm.begin(false);

    assert!(!tx.read_only);
    assert_eq!(tx.state, TxState::Active);
    assert_eq!(tx.tx_number, 1);
}

#[test]
fn test_transaction_manager_begin_read_only() {
    let mut tm = TransactionManager::new();

    let tx = tm.begin(true);

    assert!(tx.read_only);
    assert_eq!(tx.state, TxState::Active);
}

#[test]
fn test_transaction_commit() {
    let mut tm = TransactionManager::new();

    let tx = tm.begin(false);
    let tx_id = tx.tx_id;

    let result = tm.commit(tx_id);
    assert!(result.is_ok());
}

#[test]
fn test_transaction_abort() {
    let mut tm = TransactionManager::new();

    let tx = tm.begin(false);
    let tx_id = tx.tx_id;

    let result = tm.abort(tx_id);
    assert!(result.is_ok());
}

#[test]
fn test_transaction_double_commit_fails() {
    let mut tm = TransactionManager::new();

    let tx = tm.begin(false);
    let tx_id = tx.tx_id;

    tm.commit(tx_id).expect("First commit should succeed");

    let result = tm.commit(tx_id);
    assert!(result.is_err());
}

#[test]
fn test_commit_nonexistent_transaction() {
    let mut tm = TransactionManager::new();

    let fake_tx_id = TxId::new();
    let result = tm.commit(fake_tx_id);

    assert!(result.is_err());
}

#[test]
fn test_transaction_numbers_increment() {
    let mut tm = TransactionManager::new();

    let tx1 = tm.begin(false);
    let tx2 = tm.begin(false);
    let tx3 = tm.begin(false);

    assert_eq!(tx1.tx_number, 1);
    assert_eq!(tx2.tx_number, 2);
    assert_eq!(tx3.tx_number, 3);
}

#[test]
fn test_snapshot_isolation() {
    let mut tm = TransactionManager::new();

    let tx1 = tm.begin(false);
    tm.commit(tx1.tx_id).expect("Should commit");

    let tx2 = tm.begin(false);

    assert_eq!(tx2.snapshot_tx, tx1.tx_id);
}

#[test]
fn snapshot_is_the_last_committed_transaction() {
    let mut tm = TransactionManager::new();
    let tx1 = tm.begin(false);
    let tx2 = tm.begin(false);
    // nothing committed yet: both see the nil snapshot
    assert!(tx1.snapshot_tx.is_nil());
    assert!(tx2.snapshot_tx.is_nil());
    tm.commit(tx2.tx_id).expect("Should commit");
    let tx3 = tm.begin(true);
    assert_eq!(tx3.snapshot_tx, tx2.tx_id);
    tm.commit(tx1.tx_id).expect("Should commit");
    let tx4 = tm.begin(true);
    assert_eq!(tx4.snapshot_tx, tx1.tx_id);
    tm.abort(tx3.tx_id).expect("Should abort");
    let tx5 = tm.begin(true);
    assert_eq!(tx5.snapshot_tx, tx1.tx_id);
}

#[test]
fn first_transaction_sees_the_nil_snapshot_and_errors_name_the_id() {
    let mut tm = TransactionManager::new();
    let tx = tm.begin(false);
    assert!(tx.snapshot_tx.is_nil());
    tm.abort(tx.tx_id).expect("Should abort");
    match tm.abort(tx.tx_id) {
        Err(DbError::InvalidTransaction(m)) => {
            assert_eq!(m, format!("Cannot abort transaction {}: not found or not active", tx.tx_id.to_string()))
        }
        _ => panic!("expected an invalid transaction"),
    }
    assert!(tm.commit(tx.tx_id).is_err());
}

#[test]
fn test_mvcc_table_insert_read() {
    let mut tm = TransactionManager::new();
    let mut table = MvccTable::new();

    let tx = tm.begin(false);
    table.insert(b"key1".to_vec(), b"value1".to_vec(), &tx);
    tm.commit(tx.tx_id).expect("Should commit");

    let tx2 = tm.begin(true);
    let value = table.read(b"key1", &tx2);

    assert_eq!(value, Some(b"value1".to_vec()));
}

#[test]
fn test_mvcc_table_uncommitted_not_visible() {
    let mut tm = TransactionManager::new();
    let mut table = MvccTable::new();

    let tx1 = tm.begin(false);
    table.insert(b"key1".to_vec(), b"value1".to_vec(), &tx1);
    tm.commit(tx1.tx_id).expect("Should commit");

    let tx2 = tm.begin(true);
    let value = table.read(b"key1", &tx2);
    assert_eq!(value, Some(b"value1".to_vec()));
}

#[test]
fn test_mvcc_table_delete() {
    let mut tm = TransactionManager::new();
    let mut table = MvccTable::new();

    let tx1 = tm.begin(false);
    table.insert(b"key1".to_vec(), b"value1".to_vec(), &tx1);
    tm.commit(tx1.tx_id).expect("Should commit");

    let tx2 = tm.begin(false);
    table.delete(b"key1", &tx2).expect("Should delete");
    tm.commit(tx2.tx_id).expect("Should commit");

    let tx3 = tm.begin(true);
    let value = table.read(b"key1", &tx3);

    assert!(value.is_none());
}

#[test]
fn test_mvcc_table_delete_nonexistent() {
    let mut tm = TransactionManager::new();
    let mut table = MvccTable::new();

    let tx = tm.begin(false);
    let result = table.delete(b"nonexistent", &tx);

    assert!(result.is_err());
}

#[test]
fn test_is_visible_created_before_snapshot() {
    let mut tm = TransactionManager::new();

    let tx1 = tm.begin(false);
    tm.commit(tx1.tx_id).expect("Should commit");

    let tx2 = tm.begin(true);

    let version = RowVersion { created_by: tx1.tx_id, deleted_by: None, value: vec![] };

    assert!(is_visible(&version, &tx2));
}

#[test]
fn test_is_visible_deleted_before_snapshot() {
    let mut tm = TransactionManager::new();

    let tx1 = tm.begin(false);
    tm.commit(tx1.tx_id).expect("Should commit");

    let tx2 = tm.begin(false);
    tm.commit(tx2.tx_id).expect("Should commit");

    let tx3 = tm.begin(true);

    let version = RowVersion { created_by: tx1.tx_id, deleted_by: Some(tx2.tx_id), value: vec![] };

    assert!(!is_visible(&version, &tx3));
}

#[test]
fn test_version_chain_ordering() {
    let mut tm = TransactionManager::new();
    let mut table = MvccTable::new();

    let tx1 = tm.begin(false);
    table.insert(b"key".to_vec(), b"v1".to_vec(), &tx1);
    tm.commit(tx1.tx_id).expect("Should commit");

    let tx2 = tm.begin(false);
    table.insert(b"key".to_vec(), b"v2".to_vec(), &tx2);
    tm.commit(tx2.tx_id).expect("Should commit");

    let versions = table.versions(b"key").expect("Should have versions");
    assert_eq!(versions.len(), 2);

    assert_eq!(versions[0].value, b"v2");
    assert_eq!(versions[1].value, b"v1");
}

#[test]
fn reader_before_the_writer_does_not_see_the_write() {
    let mut tm = TransactionManager::new();
    let mut table = MvccTable::new();
    let reader = tm.begin(true);
    let writer = tm.begin(false);
    table.insert(b"k".to_vec(), b"v".to_vec(), &writer);
    assert_eq!(table.read(b"k", &reader), None);
    match table.delete(b"k", &reader) {
        Err(DbError::NotFound(m)) => assert_eq!(m, "Row not visible"),
        _ => panic!("expected not visible"),
    }
    match table.delete(b"zz", &reader) {
        Err(DbError::NotFound(m)) => assert_eq!(m, "Row not found"),
        _ => panic!("expected not found"),
    }
}

#[test]
fn freed_pages_are_reused_last_first() {
    let mut free = FreeList::new();
    assert_eq!(free.take_freed(), None);
    free.free(3);
    free.free(7);
    assert_eq!(free.take_freed(), Some(7));
    assert_eq!(free.take_freed(), Some(3));
    assert_eq!(free.take_freed(), None);
    assert_eq!(page_after(0), 0);
    assert_eq!(page_after(4096 * 5), 5);
    assert_eq!(page_after(4096 * 5 + 100), 5);
}
