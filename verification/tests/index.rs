use sabi::btree::{InternalNode, LeafNode, Node, NodeHeader, MAX_KEYS};
use sabi::engine::{live_value, mark_visible_deleted, index_entry_key, visible_value, deserialize_mvcc_data};
use sabi::error::DbError;
use sabi::mvcc::{RowVersion, Transaction, TransactionManager, TxState};
use sabi::tx::TxId;
use sabi::page::{Page, PageType};
use sabi::tables::TableSet;
use sabi::tree::{
    collect_range, internal_insert, internal_insert_step, leaf_insert, leaf_insert_step, new_root, next_toward_leaf, search_step, split_internal, split_leaf,
    SearchStep,
};
use sabi::wal::{
    btree_insert_record, btree_new_root_record, btree_split_internal_record, btree_split_leaf_record, WalRecord,
};

fn leaf(keys: &[&[u8]], values: &[u64]) -> LeafNode {
    LeafNode {
        header: NodeHeader { is_leaf: true, key_count: keys.len() as u16, parent: Some(7) },
        next: Some(9),
        keys: keys.iter().map(|k| k.to_vec()).collect(),
        values: values.to_vec(),
    }
}

#[test]
fn search_in_leaf_and_internal() {
    let l = Node::Leaf(leaf(&[b"a", b"c", b"c"], &[1, 2, 3]));
    assert_eq!(search_step(&l, b"c"), SearchStep::Found(2));
    assert_eq!(search_step(&l, b"b"), SearchStep::Missing);
    let n = Node::Internal(InternalNode {
        header: NodeHeader { is_leaf: false, key_count: 2, parent: None },
        keys: vec![b"f".to_vec(), b"m".to_vec()],
        children: vec![10, 20, 30],
    });
    assert_eq!(search_step(&n, b"a"), SearchStep::Descend(10));
    assert_eq!(search_step(&n, b"f"), SearchStep::Descend(20));
    assert_eq!(search_step(&n, b"z"), SearchStep::Descend(30));
    assert_eq!(next_toward_leaf(&n, b"g"), Some(20));
    assert_eq!(next_toward_leaf(&l, b"g"), None);
}

#[test]
fn range_collects_keys_between_bounds() {
    let l = leaf(&[b"a", b"b", b"c", b"d"], &[1, 2, 3, 4]);
    let mut out = vec![(b"x".to_vec(), 0u64)];
    collect_range(&l, b"b", b"c", &mut out);
    assert_eq!(out, vec![(b"x".to_vec(), 0), (b"b".to_vec(), 2), (b"c".to_vec(), 3)]);
    let mut none = Vec::new();
    collect_range(&l, b"e", b"f", &mut none);
    assert!(none.is_empty());
}

#[test]
fn leaf_insert_keeps_order_and_counts() {
    let mut l = leaf(&[b"a", b"c"], &[1, 3]);
    leaf_insert(&mut l, b"b".to_vec(), 2);
    assert_eq!(l.keys, vec![b"a".to_vec(), b"b".to_vec(), b"c".to_vec()]);
    assert_eq!(l.values, vec![1, 2, 3]);
    assert_eq!(l.header.key_count, 3);
    // a duplicate goes after the equal key, so a lookup still finds the old value
    leaf_insert(&mut l, b"b".to_vec(), 9);
    assert_eq!(l.values, vec![1, 2, 9, 3]);
    assert_eq!(search_step(&Node::Leaf(l), b"b"), SearchStep::Found(2));
}

#[test]
fn leaf_split_halves() {
    let keys: Vec<Vec<u8>> = (0..(MAX_KEYS as u8 + 1)).map(|i| vec![i]).collect();
    let values: Vec<u64> = (0..(MAX_KEYS as u64 + 1)).collect();
    let l = LeafNode {
        header: NodeHeader { is_leaf: true, key_count: keys.len() as u16, parent: Some(4) },
        next: Some(8),
        keys,
        values,
    };
    let (left, right, sep) = split_leaf(l, 42);
    assert_eq!(left.keys.len(), 64);
    assert_eq!(right.keys.len(), 65);
    assert_eq!(sep, vec![64u8]);
    assert_eq!(left.next, Some(42));
    assert_eq!(right.next, Some(8));
    assert_eq!(left.header.key_count, 64);
    assert_eq!(right.header.key_count, 65);
    assert_eq!(right.header.parent, Some(4));
    assert_eq!(right.values[0], 64);
    // lookups after the split agree with the separator's choice
    assert_eq!(search_step(&Node::Leaf(left), &[3]), SearchStep::Found(3));
    assert_eq!(search_step(&Node::Leaf(right), &[100]), SearchStep::Found(100));
}

#[test]
fn internal_insert_and_split() {
    let mut n = InternalNode {
        header: NodeHeader { is_leaf: false, key_count: 2, parent: None },
        keys: vec![b"b".to_vec(), b"d".to_vec()],
        children: vec![1, 2, 3],
    };
    internal_insert(&mut n, b"c".to_vec(), 9);
    assert_eq!(n.keys, vec![b"b".to_vec(), b"c".to_vec(), b"d".to_vec()]);
    assert_eq!(n.children, vec![1, 2, 9, 3]);
    assert_eq!(n.header.key_count, 3);
    let (left, right, promote) = split_internal(n);
    assert_eq!(promote, b"c".to_vec());
    assert_eq!(left.keys, vec![b"b".to_vec()]);
    assert_eq!(left.children, vec![1, 2]);
    assert_eq!(right.keys, vec![b"d".to_vec()]);
    assert_eq!(right.children, vec![9, 3]);
    assert_eq!(right.header.key_count, 1);
    let root = new_root(5, b"m".to_vec(), 6);
    assert_eq!(root.keys, vec![b"m".to_vec()]);
    assert_eq!(root.children, vec![5, 6]);
    assert_eq!(root.header.parent, None);
    assert_eq!(root.header.key_count, 1);
}

#[test]
fn index_log_records() {
    match btree_insert_record(b"k", 5) {
        WalRecord::Put { tx, table_id, key, value } => {
            assert_eq!(tx.0, [0u8; 16]);
            assert_eq!(table_id, 1);
            assert_eq!(key, b"k".to_vec());
            assert_eq!(value, 5u64.to_le_bytes().to_vec());
        },
        _ => panic!("expected a put"),
    }
    match btree_split_leaf_record(3) {
        WalRecord::Put { table_id, key, value, .. } => {
            assert_eq!(table_id, 2);
            assert_eq!(key, b"split_leaf".to_vec());
            assert_eq!(value, 3u64.to_le_bytes().to_vec());
        },
        _ => panic!("expected a put"),
    }
    match btree_split_internal_record(4) {
        WalRecord::Put { table_id, key, .. } => {
            assert_eq!(table_id, 3);
            assert_eq!(key, b"split_internal".to_vec());
        },
        _ => panic!("expected a put"),
    }
    match btree_new_root_record(1, 2) {
        WalRecord::Put { table_id, key, value, .. } => {
            assert_eq!(table_id, 4);
            assert_eq!(key, b"new_root".to_vec());
            let mut expected = 1u64.to_le_bytes().to_vec();
            expected.extend_from_slice(&2u64.to_le_bytes());
            assert_eq!(value, expected);
        },
        _ => panic!("expected a put"),
    }
}

fn tx_at(secs: u64, snapshot: TxId) -> Transaction {
    Transaction {
        tx_id: TxId::from_timestamp(secs, 0),
        snapshot_tx: snapshot,
        state: TxState::Active,
        read_only: false,
        tx_number: secs,
    }
}

#[test]
fn chain_reads_and_deletes() {
    let t1 = tx_at(100, TxId::nil());
    let t2 = tx_at(200, t1.tx_id);
    let reader = tx_at(300, t2.tx_id);
    let mut chain = vec![
        RowVersion { created_by: t2.tx_id, deleted_by: None, value: b"new".to_vec() },
        RowVersion { created_by: t1.tx_id, deleted_by: None, value: b"old".to_vec() },
    ];
    assert_eq!(visible_value(&chain, &reader), Some(b"new".to_vec()));
    // t2's snapshot is t1: it sees only the old version
    assert_eq!(visible_value(&chain, &t2), Some(b"old".to_vec()));
    assert_eq!(visible_value(&chain, &t1), None);
    mark_visible_deleted(&mut chain, &reader);
    assert_eq!(chain[0].deleted_by, Some(reader.tx_id));
    assert_eq!(chain[1].deleted_by, None);
    // deleted by a transaction after the reader's snapshot: still visible, but not live
    assert_eq!(visible_value(&chain, &reader), Some(b"new".to_vec()));
    assert_eq!(live_value(&chain, &reader), Some(b"old".to_vec()));
    assert_eq!(live_value(&chain, &t1), None);
    let mut untouched = chain.clone();
    mark_visible_deleted(&mut untouched, &t1);
    assert_eq!(untouched[1].deleted_by, None);
}

#[test]
fn composite_key_to_index_entry_key() {
    assert_eq!(index_entry_key(b"users\0alice").unwrap(), b"alice".to_vec());
    match index_entry_key(b"nozero") {
        Err(DbError::Corruption(m)) => assert_eq!(m, "Invalid composite key format"),
        other => panic!("unexpected {:?}", other),
    }
}

#[test]
fn tables_create_insert_and_entry() {
    let mut tm = TransactionManager::new();
    let tx = tm.begin(false);
    let mut tables = TableSet::new();
    assert!(tables.create_table("users", false).is_ok());
    assert!(tables.contains("users"));
    let stored = tables.insert_version("users", b"alice".to_vec(), b"v1".to_vec(), &tx).unwrap();
    let mut page = Page::new(3, PageType::Data);
    page.payload = stored;
    let versions = deserialize_mvcc_data(&page).unwrap();
    assert_eq!(versions.len(), 1);
    assert_eq!(versions[0].value, b"v1".to_vec());
    assert_eq!(versions[0].created_by, tx.tx_id);

    let entry = tables.get_table_entry("users", b"users\0alice").unwrap();
    assert_eq!(entry.len(), 1);
    assert!(tables.get_table_entry("users", b"usersalice").is_none());
    assert!(tables.get_table_entry("other", b"users\0alice").is_none());

    // if_not_exists keeps the rows; without it the table starts over
    assert!(tables.create_table("users", true).is_ok());
    assert!(tables.get_table_entry("users", b"users\0alice").is_some());
    assert!(tables.create_table("users", false).is_ok());
    assert!(tables.get_table_entry("users", b"users\0alice").is_none());

    // inserting into a missing table creates it
    tables.insert_version("logs", b"k".to_vec(), b"v".to_vec(), &tx).unwrap();
    assert!(tables.contains("logs"));
}

#[test]
fn split_keeps_range_scans() {
    let keys: Vec<Vec<u8>> = (0u8..10).map(|i| vec![b'k', i]).collect();
    let values: Vec<u64> = (0..10).collect();
    let l = LeafNode { header: NodeHeader { is_leaf: true, key_count: 10, parent: None }, next: None, keys, values };
    let mut whole = Vec::new();
    collect_range(&l, &[b'k', 2], &[b'k', 7], &mut whole);
    let (left, right, _) = split_leaf(l, 5);
    let mut halves = Vec::new();
    collect_range(&left, &[b'k', 2], &[b'k', 7], &mut halves);
    collect_range(&right, &[b'k', 2], &[b'k', 7], &mut halves);
    assert_eq!(whole, halves);
    assert_eq!(whole.len(), 6);
}

#[test]
fn insert_steps_report_when_a_node_must_split() {
    let mut leaf = LeafNode {
        header: NodeHeader { is_leaf: true, key_count: 0, parent: None },
        next: None,
        keys: vec![],
        values: vec![],
    };
    for i in 0..MAX_KEYS {
        leaf_insert(&mut leaf, vec![(i / 256) as u8, (i % 256) as u8], i as u64);
    }
    let (small, split) = leaf_insert_step(
        LeafNode { header: NodeHeader { is_leaf: true, key_count: 0, parent: None }, next: None, keys: vec![], values: vec![] },
        vec![1],
        7,
    );
    assert!(!split);
    assert_eq!(small.keys, vec![vec![1u8]]);
    let (full, split) = leaf_insert_step(leaf, vec![9, 9], 99);
    assert!(split);
    assert_eq!(full.keys.len(), MAX_KEYS + 1);
    assert_eq!(full.header.key_count as usize, MAX_KEYS + 1);
    let node = InternalNode { header: NodeHeader { is_leaf: false, key_count: 1, parent: Some(3) }, keys: vec![vec![5]], children: vec![10, 11] };
    let (node, split) = internal_insert_step(node, vec![7], 12);
    assert!(!split);
    assert_eq!(node.children, vec![10, 11, 12]);
    assert_eq!(node.header.key_count, 2);
    assert_eq!(node.header.parent, Some(3));
}

#[test]
fn a_node_written_again_with_a_parent_keeps_its_entries() {
    let mut node = Node::Leaf(LeafNode {
        header: NodeHeader { is_leaf: true, key_count: 2, parent: None },
        next: Some(4),
        keys: vec![vec![1], vec![2]],
        values: vec![10, 20],
    });
    node.set_parent_link(9);
    let mut page = Page::new(5, PageType::BTreeLeaf);
    page.serialize_btree(&node).expect("Should serialize");
    assert_eq!(page.read_parent(), Some(9));
    match page.deserialize_btree().expect("Should read") {
        Node::Leaf(l) => {
            assert_eq!(l.header.parent, Some(9));
            assert_eq!(l.next, Some(4));
            assert_eq!(l.keys, vec![vec![1u8], vec![2u8]]);
            assert_eq!(l.values, vec![10, 20]);
        }
        _ => panic!("expected a leaf"),
    }
}
