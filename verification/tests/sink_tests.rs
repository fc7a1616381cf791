use carp_ingest::decode::{
    DecodePath, decode_block, is_recoverable_decode_error, parse_problematic_conway_block,
};
use carp_ingest::era::EraValue;
use carp_ingest::exec::{ExecutionPlan, PlanNode};
use carp_ingest::perf::PerfAggregator;
use carp_ingest::plan::{TaskMeta, SLOT_BLOCK, SLOT_CATALYST};
use carp_ingest::sink::{CardanoEventType, CardanoSink, ProcessError, SeedGenesis, StartError};
use carp_ingest::task::{CatalystTransactionTask, MultieraBlockTask, TaskConfig, TaskKind};
use cml_chain::auxdata::{AuxiliaryData, Metadata, TransactionMetadatum};
use cml_chain::block::{Block, Header, HeaderBody, OperationalCert, ProtocolVersion};
use cml_chain::crypto::{KESSignature, VRFCert};
use cml_chain::transaction::{TransactionBody, TransactionInput, TransactionWitnessSet};
use cml_chain::OrderedHashMap;
use cml_core::serialization::Serialize;
use cml_crypto::{
    BlockBodyHash, Ed25519Signature, KESVkey, PrivateKey, RawBytesEncoding, TransactionHash,
    VRFVkey,
};

fn mk_header() -> Header {
    let sk = PrivateKey::from_normal_bytes(&[7u8; 32]).unwrap();
    let vkey = sk.to_public();
    let vrf_vkey = VRFVkey::from([2u8; 32]);
    let vrf_cert = VRFCert::new(vec![3u8; 32], vec![4u8; 80]).unwrap();
    let body_hash = BlockBodyHash::from([5u8; 32]);
    let op_cert = OperationalCert::new(
        KESVkey::from([6u8; 32]),
        0,
        0,
        Ed25519Signature::from_raw_bytes(&[8u8; 64]).unwrap(),
    );
    let hb = HeaderBody::new(
        1,
        10,
        None,
        vkey,
        vrf_vkey,
        vrf_cert,
        0,
        body_hash,
        op_cert,
        ProtocolVersion::new(9, 0),
    );
    Header::new(hb, KESSignature::new(vec![9u8; 448]).unwrap())
}

fn mk_tx(seed: u8) -> TransactionBody {
    let input = TransactionInput::new(TransactionHash::from([seed; 32]), 0);
    TransactionBody::new(cml_chain::Set::from(vec![input]), vec![], 0)
}

/// A Conway block in the explicit-network wire format, with one
/// transaction; when `catalyst` is set, its auxiliary data carries the
/// Catalyst registration label.
fn conway_block_hex(catalyst: bool, seed: u8) -> String {
    let mut aux: OrderedHashMap<u16, AuxiliaryData> = OrderedHashMap::default();
    if catalyst {
        let mut md = Metadata::new();
        md.set(61284, TransactionMetadatum::new_text("cip-15".to_string()).unwrap());
        aux.insert(0u16, AuxiliaryData::new_shelley(md));
    }
    let block = Block::new(
        mk_header(),
        vec![mk_tx(seed)],
        vec![TransactionWitnessSet::new()],
        aux,
        vec![],
    );
    let mut bytes = vec![0x82u8, 0x07];
    bytes.extend(block.to_cbor_bytes());
    hex::encode(bytes)
}

fn mk_plan() -> ExecutionPlan<TaskKind> {
    let nodes = vec![
        PlanNode {
            meta: TaskMeta { name: 1, eras: vec![], reads: vec![], writes: SLOT_BLOCK },
            task: TaskKind::MultieraBlock(MultieraBlockTask {}),
        },
        PlanNode {
            meta: TaskMeta { name: 2, eras: vec![], reads: vec![SLOT_BLOCK], writes: SLOT_CATALYST },
            task: TaskKind::Catalyst(CatalystTransactionTask {}),
        },
    ];
    match ExecutionPlan::build(nodes) {
        Ok(p) => p,
        Err(_) => panic!("default plan must validate"),
    }
}

fn mk_sink() -> CardanoSink {
    CardanoSink::new(
        "testnet".to_string(),
        mk_plan(),
        TaskConfig { readonly: false, include_payload: true },
    )
}

fn block_event(cbor_hex: String, epoch: Option<u64>, hash_seed: u8, number: u64) -> CardanoEventType {
    CardanoEventType::Block {
        cbor_hex,
        epoch,
        epoch_slot: epoch.map(|_| 1),
        block_number: number,
        block_hash: hex::encode([hash_seed; 32]),
        block_slot: 10 * number,
    }
}

#[test]
fn decode_reports_the_era_encoded_in_the_input() {
    let bytes = hex::decode(conway_block_hex(true, 0x11)).unwrap();
    let (block, path) = decode_block(&bytes).unwrap();
    assert_eq!(path, DecodePath::Standard);
    assert_eq!(block.era, EraValue::Conway);
    assert_eq!(block.txs.len(), 1);
    assert_eq!(block.txs[0].metadata_labels, vec![61284]);
    assert!(block.txs[0].has_aux);
    assert!(!block.aux_empty);
}

#[test]
fn decode_rejects_garbage_as_unrecognized() {
    let bytes = vec![0x82u8, 0x07, 0x00];
    let r = decode_block(&bytes);
    assert!(matches!(
        r,
        Err(carp_ingest::decode::DecodeError::Unrecognized(_))
    ));
}

#[test]
fn process_commits_block_row_and_catalyst_records() {
    let mut sink = mk_sink();
    let mut perf = PerfAggregator::new();
    let evt = block_event(conway_block_hex(true, 0x11), Some(1), 0xAA, 1);
    sink.process(evt, &mut perf).unwrap();
    assert_eq!(sink.store.count_blocks(), 1);
    assert_eq!(sink.store.blocks[0].era, EraValue::Conway);
    assert_eq!(sink.store.blocks[0].hash, vec![0xAA; 32]);
    assert_eq!(sink.store.records.len(), 1);
    let rec = &sink.store.records[0];
    assert_eq!(rec.block_id, sink.store.blocks[0].id);
    assert_eq!(rec.tx_index, 0);
    assert!(rec.is_valid);
    assert_eq!(rec.metadata_labels, vec![61284]);
    let expected_hash =
        cml_multi_era::MultiEraTransactionBody::Conway(mk_tx(0x11)).hash().to_hex();
    assert_eq!(rec.hash, expected_hash);
}

#[test]
fn scenario_no_metadata_means_no_records_but_block_commits() {
    let mut sink = mk_sink();
    let mut perf = PerfAggregator::new();
    let evt = block_event(conway_block_hex(false, 0x22), Some(1), 0xBB, 1);
    sink.process(evt, &mut perf).unwrap();
    assert_eq!(sink.store.count_blocks(), 1);
    assert_eq!(sink.store.records.len(), 0);
}

#[test]
fn reprocessing_an_identical_block_yields_identical_outputs() {
    let mut sink1 = mk_sink();
    let mut sink2 = mk_sink();
    let mut perf = PerfAggregator::new();
    let hex1 = conway_block_hex(true, 0x33);
    sink1.process(block_event(hex1.clone(), Some(1), 0xCC, 1), &mut perf).unwrap();
    sink2.process(block_event(hex1, Some(1), 0xCC, 1), &mut perf).unwrap();
    assert_eq!(sink1.store.records.len(), sink2.store.records.len());
    for (a, b) in sink1.store.records.iter().zip(sink2.store.records.iter()) {
        assert_eq!(a.id, b.id);
        assert_eq!(a.hash, b.hash);
        assert_eq!(a.block_id, b.block_id);
        assert_eq!(a.tx_index, b.tx_index);
        assert_eq!(a.metadata, b.metadata);
        assert_eq!(a.is_valid, b.is_valid);
        assert_eq!(a.metadata_labels, b.metadata_labels);
        assert_eq!(a.inputs, b.inputs);
        assert_eq!(a.outputs, b.outputs);
    }
}

#[test]
fn duplicate_block_hash_is_refused_whole() {
    let mut sink = mk_sink();
    let mut perf = PerfAggregator::new();
    sink.process(block_event(conway_block_hex(true, 0x44), None, 0xDD, 1), &mut perf).unwrap();
    let r = sink.process(block_event(conway_block_hex(false, 0x45), None, 0xDD, 2), &mut perf);
    assert!(matches!(r, Err(ProcessError::DuplicateBlock)));
    assert_eq!(sink.store.count_blocks(), 1);
    assert_eq!(sink.store.records.len(), 1);
}

#[test]
fn epoch_reset_fires_once_per_increase_and_not_at_startup() {
    let mut sink = mk_sink();
    let mut perf = PerfAggregator::new();
    // first block after startup: no summary, whatever its epoch
    sink.process(block_event(conway_block_hex(false, 0x50), Some(5), 0x01, 1), &mut perf).unwrap();
    assert!(sink.last_summary.is_none());
    // same epoch again: still none
    sink.process(block_event(conway_block_hex(false, 0x51), Some(5), 0x02, 2), &mut perf).unwrap();
    assert!(sink.last_summary.is_none());
    // strictly greater epoch: exactly one summary, for the elapsed epoch
    sink.process(block_event(conway_block_hex(false, 0x52), Some(6), 0x03, 3), &mut perf).unwrap();
    let s = sink.last_summary.unwrap();
    assert_eq!(s.epoch, 5);
    // the same epoch cannot fire twice
    sink.process(block_event(conway_block_hex(false, 0x53), Some(6), 0x04, 4), &mut perf).unwrap();
    assert_eq!(sink.last_summary.unwrap().epoch, 5);
    // an epoch-less block changes nothing
    sink.process(block_event(conway_block_hex(false, 0x54), None, 0x05, 5), &mut perf).unwrap();
    assert_eq!(sink.last_summary.unwrap().epoch, 5);
}

#[test]
fn rollback_to_known_hash_deletes_exactly_the_blocks_after_it() {
    let mut sink = mk_sink();
    let mut perf = PerfAggregator::new();
    sink.process(block_event(conway_block_hex(true, 0x61), None, 0x11, 1), &mut perf).unwrap();
    sink.process(block_event(conway_block_hex(true, 0x62), None, 0x12, 2), &mut perf).unwrap();
    sink.process(block_event(conway_block_hex(true, 0x63), None, 0x13, 3), &mut perf).unwrap();
    assert_eq!(sink.store.records.len(), 3);
    let target_id = sink.store.blocks[1].id;
    sink.process(
        CardanoEventType::RollBack { block_slot: 20, block_hash: hex::encode([0x12u8; 32]) },
        &mut perf,
    )
    .unwrap();
    assert_eq!(sink.store.count_blocks(), 2);
    assert!(sink.store.blocks.iter().all(|b| b.id <= target_id));
    assert_eq!(sink.store.records.len(), 2);
    assert!(sink.store.records.iter().all(|r| r.block_id <= target_id));
}

#[test]
fn scenario_rollback_unknown_hash_with_blocks_is_fatal() {
    let mut sink = mk_sink();
    let mut perf = PerfAggregator::new();
    sink.process(block_event(conway_block_hex(false, 0x71), None, 0x21, 1), &mut perf).unwrap();
    sink.process(block_event(conway_block_hex(false, 0x72), None, 0x22, 2), &mut perf).unwrap();
    sink.process(block_event(conway_block_hex(false, 0x73), None, 0x23, 3), &mut perf).unwrap();
    let r = sink.process(
        CardanoEventType::RollBack { block_slot: 5, block_hash: hex::encode([0x99u8; 32]) },
        &mut perf,
    );
    assert!(matches!(r, Err(ProcessError::RollbackTargetNotFound)));
    assert_eq!(sink.store.count_blocks(), 3);
}

#[test]
fn scenario_rollback_unknown_hash_with_empty_store_is_a_noop() {
    let mut sink = mk_sink();
    let mut perf = PerfAggregator::new();
    let r = sink.process(
        CardanoEventType::RollBack { block_slot: 5, block_hash: hex::encode([0x99u8; 32]) },
        &mut perf,
    );
    assert!(r.is_ok());
    assert_eq!(sink.store.count_blocks(), 0);
}

#[test]
fn scenario_fallback_recovers_a_header_only_conway_block() {
    // the fallback reads only the era-tagged prefix, the block array head
    // and the header
    let mut bytes = vec![0x82u8, 0x07, 0x85];
    bytes.extend(mk_header().to_cbor_bytes());
    let block = parse_problematic_conway_block(&bytes).unwrap();
    assert_eq!(block.era, EraValue::Conway);
    assert_eq!(block.txs.len(), 0);
    assert_eq!(block.invalid_transactions.len(), 0);
    assert!(block.aux_empty);
}

#[test]
fn fallback_refuses_other_era_tags() {
    let mut bytes = vec![0x82u8, 0x06, 0x85];
    bytes.extend(mk_header().to_cbor_bytes());
    let r = parse_problematic_conway_block(&bytes);
    assert!(matches!(
        r,
        Err(carp_ingest::decode::DecodeError::FallbackWrongEra(6))
    ));
}

#[test]
fn recoverable_error_class_is_recognized_by_its_text() {
    let msg = "Deserialization failed in Block because: Duplicate key: \
               some complicated/unsupported type"
        .to_string();
    assert!(is_recoverable_decode_error(&msg));
    let other = "Deserialization failed in Block because: CBOR error".to_string();
    assert!(!is_recoverable_decode_error(&other));
    let half = "Duplicate key: 5".to_string();
    assert!(!is_recoverable_decode_error(&half));
}

#[test]
fn start_from_empty_store_runs_genesis_and_resumes_from_it() {
    let mut sink = mk_sink();
    let mut genesis = SeedGenesis { hash: vec![0xEE; 32], slot: 0, block_number: 0 };
    let points = sink.start_from(None, &mut genesis).unwrap();
    assert_eq!(sink.store.count_blocks(), 1);
    assert_eq!(points.len(), 1);
    assert_eq!(points[0].hash, vec![0xEE; 32]);
}

#[test]
fn start_from_specific_hash_resumes_just_before_it() {
    let mut sink = mk_sink();
    let mut perf = PerfAggregator::new();
    sink.process(block_event(conway_block_hex(false, 0x81), None, 0x31, 1), &mut perf).unwrap();
    sink.process(block_event(conway_block_hex(false, 0x82), None, 0x32, 2), &mut perf).unwrap();
    let mut genesis = SeedGenesis { hash: vec![0], slot: 0, block_number: 0 };
    let points = sink.start_from(Some(hex::encode([0x32u8; 32])), &mut genesis).unwrap();
    assert_eq!(points.len(), 1);
    assert_eq!(points[0].hash, vec![0x31; 32]);
    // the oldest block has nothing before it
    let none = sink.start_from(Some(hex::encode([0x31u8; 32])), &mut genesis).unwrap();
    assert_eq!(none.len(), 0);
    // an unknown hash is fatal
    let r = sink.start_from(Some(hex::encode([0x77u8; 32])), &mut genesis);
    assert!(matches!(r, Err(StartError::HashNotFound)));
}

#[test]
fn readonly_mode_persists_no_new_records() {
    let mut sink = CardanoSink::new(
        "testnet".to_string(),
        mk_plan(),
        TaskConfig { readonly: true, include_payload: true },
    );
    let mut perf = PerfAggregator::new();
    sink.process(block_event(conway_block_hex(true, 0x91), None, 0x41, 1), &mut perf).unwrap();
    assert_eq!(sink.store.count_blocks(), 1);
    assert_eq!(sink.store.records.len(), 0);
}

#[test]
fn latest_points_come_newest_first_up_to_count() {
    let mut sink = mk_sink();
    let mut perf = PerfAggregator::new();
    sink.process(block_event(conway_block_hex(false, 0xA1), None, 0x61, 1), &mut perf).unwrap();
    sink.process(block_event(conway_block_hex(false, 0xA2), None, 0x62, 2), &mut perf).unwrap();
    sink.process(block_event(conway_block_hex(false, 0xA3), None, 0x63, 3), &mut perf).unwrap();
    let points = sink.get_latest_points(2);
    assert_eq!(points.len(), 2);
    assert_eq!(points[0].hash, vec![0x63; 32]);
    assert_eq!(points[1].hash, vec![0x62; 32]);
    assert_eq!(sink.get_latest_points(10).len(), 3);
    assert_eq!(sink.get_latest_points(0).len(), 0);
}
