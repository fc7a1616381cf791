use carp_ingest::era::EraValue;
use carp_ingest::exec::{ExecutionPlan, PlanNode};
use carp_ingest::perf::PerfAggregator;
use carp_ingest::plan::{TaskMeta, SLOT_BLOCK, SLOT_CATALYST};
use carp_ingest::sink::{
    CardanoEventType, CardanoSink, GenesisBootstrap, ProcessError, SeedGenesis, StartError,
};
use carp_ingest::store::ChainStore;
use carp_ingest::task::{CatalystTransactionTask, MultieraBlockTask, TaskConfig, TaskKind};
use cml_chain::auxdata::{AuxiliaryData, Metadata, TransactionMetadatum};
use cml_chain::block::{Block, Header, HeaderBody, OperationalCert, ProtocolVersion};
use cml_chain::crypto::{KESSignature, VRFCert};
use cml_chain::transaction::{TransactionBody, TransactionInput, TransactionWitnessSet};
use cml_chain::OrderedHashMap;
use cml_core::serialization::Serialize;
use cml_crypto::{
    BlockBodyHash, Ed25519Signature, KESVkey, PrivateKey, RawBytesEncoding, TransactionHash,
    VRFVkey,
};

fn mk_sink_with_byron_only_block_task() -> CardanoSink {
    // the block-row task applies to Byron alone, so for any other era the
    // Catalyst task runs with its declared read absent
    let nodes = vec![
        PlanNode {
            meta: TaskMeta {
                name: 1,
                eras: vec![EraValue::Byron],
                reads: vec![],
                writes: SLOT_BLOCK,
            },
            task: TaskKind::MultieraBlock(MultieraBlockTask {}),
        },
        PlanNode {
            meta: TaskMeta { name: 2, eras: vec![], reads: vec![SLOT_BLOCK], writes: SLOT_CATALYST },
            task: TaskKind::Catalyst(CatalystTransactionTask {}),
        },
    ];
    let plan = match ExecutionPlan::build(nodes) {
        Ok(p) => p,
        Err(_) => panic!("plan must validate"),
    };
    CardanoSink::new(
        "testnet".to_string(),
        plan,
        TaskConfig { readonly: false, include_payload: true },
    )
}

#[test]
fn malformed_hex_payload_is_fatal_for_the_block() {
    let mut sink = mk_sink_with_byron_only_block_task();
    let mut perf = PerfAggregator::new();
    let r = sink.process(
        CardanoEventType::Block {
            cbor_hex: "zz".to_string(),
            epoch: None,
            epoch_slot: None,
            block_number: 1,
            block_hash: hex::encode([1u8; 32]),
            block_slot: 10,
        },
        &mut perf,
    );
    assert!(matches!(r, Err(ProcessError::InvalidHex)));
    assert_eq!(sink.store.count_blocks(), 0);
}

#[test]
fn malformed_rollback_hash_is_fatal() {
    let mut sink = mk_sink_with_byron_only_block_task();
    let mut perf = PerfAggregator::new();
    let r = sink.process(
        CardanoEventType::RollBack { block_slot: 1, block_hash: "not-hex".to_string() },
        &mut perf,
    );
    assert!(matches!(r, Err(ProcessError::InvalidHex)));
}

#[test]
fn task_failure_aborts_the_whole_block() {
    // a Conway block reaches the Catalyst task while its upstream block
    // task is filtered out by era: the missing input fails the task and
    // nothing of the block is persisted
    let mut sink = mk_sink_with_byron_only_block_task();
    let mut perf = PerfAggregator::new();
    let cbor_hex = conway_block_hex_with_catalyst();
    let r = sink.process(
        CardanoEventType::Block {
            cbor_hex,
            epoch: None,
            epoch_slot: None,
            block_number: 1,
            block_hash: hex::encode([2u8; 32]),
            block_slot: 10,
        },
        &mut perf,
    );
    match r {
        Err(ProcessError::Task(f)) => {
            assert_eq!(f.task, 2);
        },
        _ => panic!("expected a task failure with the task identity attached"),
    }
    assert_eq!(sink.store.count_blocks(), 0);
    assert_eq!(sink.store.records.len(), 0);
}

#[test]
fn header_garbage_fails_the_fallback() {
    let bytes = vec![0x82u8, 0x07, 0x85, 0xff, 0xff];
    let r = carp_ingest::decode::parse_problematic_conway_block(&bytes);
    assert!(matches!(
        r,
        Err(carp_ingest::decode::DecodeError::FallbackHeader(_))
    ));
}

#[test]
fn start_from_malformed_hash_is_refused() {
    let mut sink = mk_sink_with_byron_only_block_task();
    let mut genesis = SeedGenesis { hash: vec![0], slot: 0, block_number: 0 };
    let r = sink.start_from(Some("xyz".to_string()), &mut genesis);
    assert!(matches!(r, Err(StartError::InvalidHex)));
}

#[test]
fn seed_genesis_refuses_a_duplicate_seed() {
    let mut store = ChainStore::new();
    let mut genesis = SeedGenesis { hash: vec![0xEE; 32], slot: 0, block_number: 0 };
    genesis.bootstrap(&mut store, &"testnet".to_string()).unwrap();
    let r = genesis.bootstrap(&mut store, &"testnet".to_string());
    assert!(r.is_err());
}

// A well-formed Conway block in the explicit-network wire format whose one
// transaction carries the Catalyst registration label.
fn conway_block_hex_with_catalyst() -> String {
    let sk = PrivateKey::from_normal_bytes(&[7u8; 32]).unwrap();
    let op_cert = OperationalCert::new(
        KESVkey::from([6u8; 32]),
        0,
        0,
        Ed25519Signature::from_raw_bytes(&[8u8; 64]).unwrap(),
    );
    let hb = HeaderBody::new(
        1,
        10,
        None,
        sk.to_public(),
        VRFVkey::from([2u8; 32]),
        VRFCert::new(vec![3u8; 32], vec![4u8; 80]).unwrap(),
        0,
        BlockBodyHash::from([5u8; 32]),
        op_cert,
        ProtocolVersion::new(9, 0),
    );
    let header = Header::new(hb, KESSignature::new(vec![9u8; 448]).unwrap());
    let input = TransactionInput::new(TransactionHash::from([0x55u8; 32]), 0);
    let tx = TransactionBody::new(cml_chain::Set::from(vec![input]), vec![], 0);
    let mut md = Metadata::new();
    md.set(61284, TransactionMetadatum::new_text("cip-15".to_string()).unwrap());
    let mut aux: OrderedHashMap<u16, AuxiliaryData> = OrderedHashMap::default();
    aux.insert(0u16, AuxiliaryData::new_shelley(md));
    let block = Block::new(header, vec![tx], vec![TransactionWitnessSet::new()], aux, vec![]);
    let mut bytes = vec![0x82u8, 0x07];
    bytes.extend(block.to_cbor_bytes());
    hex::encode(bytes)
}
