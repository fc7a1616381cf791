use carp_ingest::catalyst_txn::Model;
use carp_ingest::era::EraValue;
use carp_ingest::store::{ChainStore, StoreError};

fn mk_record(hash: &str, block_id: u64, tx_index: u64) -> Model {
    Model {
        id: 0,
        hash: hash.to_string(),
        block_id,
        tx_index,
        metadata: "null".to_string(),
        is_valid: true,
        metadata_labels: vec![61284],
        inputs: "[]".to_string(),
        outputs: "[]".to_string(),
    }
}

#[test]
fn block_ids_increase_with_arrival_order() {
    let mut store = ChainStore::new();
    let a = store.insert_block(vec![1], 10, EraValue::Conway, 1).unwrap();
    let b = store.insert_block(vec![2], 11, EraValue::Conway, 2).unwrap();
    let c = store.insert_block(vec![3], 12, EraValue::Conway, 3).unwrap();
    assert!(a < b && b < c);
    assert_eq!(store.count_blocks(), 3);
}

#[test]
fn duplicate_hash_is_refused() {
    let mut store = ChainStore::new();
    store.insert_block(vec![9, 9], 10, EraValue::Babbage, 1).unwrap();
    let r = store.insert_block(vec![9, 9], 11, EraValue::Babbage, 2);
    assert_eq!(r, Err(StoreError::DuplicateHash));
    assert_eq!(store.count_blocks(), 1);
}

#[test]
fn ids_are_not_reused_after_deletion() {
    let mut store = ChainStore::new();
    let a = store.insert_block(vec![1], 10, EraValue::Conway, 1).unwrap();
    let b = store.insert_block(vec![2], 11, EraValue::Conway, 2).unwrap();
    store.delete_blocks_after(a);
    let c = store.insert_block(vec![3], 12, EraValue::Conway, 3).unwrap();
    assert!(c > b);
}

#[test]
fn rollback_keeps_exactly_blocks_up_to_target_and_cascades() {
    let mut store = ChainStore::new();
    let a = store.insert_block(vec![1], 10, EraValue::Conway, 1).unwrap();
    let b = store.insert_block(vec![2], 11, EraValue::Conway, 2).unwrap();
    let c = store.insert_block(vec![3], 12, EraValue::Conway, 3).unwrap();
    store.insert_records(&vec![mk_record("aa", a, 0)], a);
    store.insert_records(&vec![mk_record("bb", b, 0), mk_record("b2", b, 1)], b);
    store.insert_records(&vec![mk_record("cc", c, 0)], c);
    assert_eq!(store.records.len(), 4);

    store.delete_blocks_after(b);

    assert_eq!(store.count_blocks(), 2);
    assert_eq!(store.blocks[0].id, a);
    assert_eq!(store.blocks[1].id, b);
    // no orphans: only records owned by surviving blocks remain
    assert_eq!(store.records.len(), 3);
    for r in &store.records {
        assert!(r.block_id <= b);
    }
}

#[test]
fn record_ids_are_assigned_in_order() {
    let mut store = ChainStore::new();
    let a = store.insert_block(vec![1], 10, EraValue::Conway, 1).unwrap();
    store.insert_records(&vec![mk_record("r1", a, 0), mk_record("r2", a, 1)], a);
    assert!(store.records[0].id < store.records[1].id);
    assert_eq!(store.records[0].hash, "r1");
    assert_eq!(store.records[1].hash, "r2");
}

#[test]
fn latest_and_previous_points() {
    let mut store = ChainStore::new();
    assert!(store.latest_point().is_none());
    store.insert_block(vec![1], 10, EraValue::Conway, 1).unwrap();
    store.insert_block(vec![2], 20, EraValue::Conway, 2).unwrap();
    let p = store.latest_point().unwrap();
    assert_eq!(p.slot_nb, 20);
    assert_eq!(p.hash, vec![2]);
    let before = store.point_before(1).unwrap();
    assert_eq!(before.slot_nb, 10);
    assert_eq!(before.hash, vec![1]);
    assert!(store.point_before(0).is_none());
}
