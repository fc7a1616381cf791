use carp_ingest::era::EraValue;
use carp_ingest::exec::{ExecutionPlan, PlanNode};
use carp_ingest::plan::{PlanError, TaskMeta, validate_plan, SLOT_BLOCK, SLOT_CATALYST};
use carp_ingest::task::{CatalystTransactionTask, MultieraBlockTask, TaskKind};

fn meta(name: u64, reads: Vec<u64>, writes: u64) -> TaskMeta {
    TaskMeta { name, eras: vec![], reads, writes }
}

#[test]
fn duplicate_write_slot_is_refused() {
    let metas = vec![meta(1, vec![], 7), meta(2, vec![], 7)];
    assert!(matches!(validate_plan(&metas), Err(PlanError::DuplicateWrite)));
}

#[test]
fn missing_read_is_a_construction_error() {
    let metas = vec![meta(1, vec![99], 7)];
    assert!(matches!(validate_plan(&metas), Err(PlanError::MissingRead)));
}

#[test]
fn cyclic_dependency_is_refused() {
    let metas = vec![meta(1, vec![8], 7), meta(2, vec![7], 8)];
    assert!(matches!(validate_plan(&metas), Err(PlanError::CyclicDependency)));
}

#[test]
fn self_read_is_a_cycle() {
    let metas = vec![meta(1, vec![7], 7)];
    assert!(matches!(validate_plan(&metas), Err(PlanError::CyclicDependency)));
}

#[test]
fn order_places_writers_before_readers() {
    // registration order deliberately lists the reader first
    let metas = vec![meta(1, vec![7], 9), meta(2, vec![], 7)];
    let (order, pos) = validate_plan(&metas).unwrap();
    assert_eq!(order, vec![1, 0]);
    assert_eq!(pos, vec![1, 0]);
}

#[test]
fn ties_break_by_registration_order() {
    let metas = vec![meta(1, vec![], 5), meta(2, vec![], 6), meta(3, vec![], 7)];
    let (order, _) = validate_plan(&metas).unwrap();
    assert_eq!(order, vec![0, 1, 2]);
}

#[test]
fn diamond_orders_deterministically() {
    // 0 writes 1; 1 and 2 read 1; 3 reads both
    let metas = vec![
        meta(10, vec![], 1),
        meta(11, vec![1], 2),
        meta(12, vec![1], 3),
        meta(13, vec![2, 3], 4),
    ];
    let (order, _) = validate_plan(&metas).unwrap();
    assert_eq!(order, vec![0, 1, 2, 3]);
}

#[test]
fn build_accepts_the_default_task_pair() {
    let nodes = vec![
        PlanNode {
            meta: TaskMeta { name: 1, eras: vec![], reads: vec![], writes: SLOT_BLOCK },
            task: TaskKind::MultieraBlock(MultieraBlockTask {}),
        },
        PlanNode {
            meta: TaskMeta {
                name: 2,
                eras: vec![
                    EraValue::Shelley,
                    EraValue::Allegra,
                    EraValue::Mary,
                    EraValue::Alonzo,
                    EraValue::Babbage,
                    EraValue::Conway,
                ],
                reads: vec![SLOT_BLOCK],
                writes: SLOT_CATALYST,
            },
            task: TaskKind::Catalyst(CatalystTransactionTask {}),
        },
    ];
    let plan = match ExecutionPlan::build(nodes) {
        Ok(p) => p,
        Err(_) => panic!("the default task pair must validate"),
    };
    assert_eq!(plan.order, vec![0, 1]);
}
