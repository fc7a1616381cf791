use carp_ingest::era::{EraValue, era_from_tag};
use carp_ingest::perf::{PerfAggregator, Stage, TaskPerfAggregator, sat_add, sat_sub};

#[test]
fn saturating_arithmetic_is_exact() {
    assert_eq!(sat_add(2, 3), 5);
    assert_eq!(sat_add(u64::MAX - 1, 5), u64::MAX);
    assert_eq!(sat_add(u64::MAX, 0), u64::MAX);
    assert_eq!(sat_sub(5, 3), 2);
    assert_eq!(sat_sub(3, 5), 0);
}

#[test]
fn aggregator_accumulates_per_stage() {
    let mut p = PerfAggregator::new();
    p.record(Stage::BlockParse, 10);
    p.record(Stage::BlockParse, 5);
    p.record(Stage::Rollback, 7);
    assert_eq!(p.block_parse, 15);
    assert_eq!(p.rollback, 7);
    assert_eq!(p.block_fetch, 0);
    assert_eq!(p.stage_total(), 22);
}

#[test]
fn overhead_is_the_unaccounted_rest_of_the_epoch() {
    let mut p = PerfAggregator::new();
    p.record(Stage::BlockFetch, 10);
    p.record(Stage::BlockParse, 20);
    p.set_overhead(100, 30);
    assert_eq!(p.overhead, 40);
    // a short epoch cannot go negative
    p.set_overhead(10, 30);
    assert_eq!(p.overhead, 0);
}

#[test]
fn reset_returns_every_accumulator_to_zero() {
    let mut p = PerfAggregator::new();
    p.record(Stage::BlockFetch, 1);
    p.record(Stage::BlockParse, 2);
    p.record(Stage::Rollback, 3);
    p.set_overhead(100, 0);
    p.reset();
    assert_eq!(p, PerfAggregator::new());
}

#[test]
fn task_aggregator_totals_per_task_times() {
    let mut t = TaskPerfAggregator::new(3);
    assert_eq!(t.get_total(), 0);
    t.record(0, 5);
    t.record(2, 7);
    t.record(0, 1);
    assert_eq!(t.task_nanos, vec![6, 0, 7]);
    assert_eq!(t.get_total(), 13);
    t.record(1, u64::MAX);
    assert_eq!(t.get_total(), u64::MAX);
}

#[test]
fn era_tags_map_to_their_eras() {
    assert_eq!(era_from_tag(0), Some(EraValue::Byron));
    assert_eq!(era_from_tag(1), Some(EraValue::Byron));
    assert_eq!(era_from_tag(2), Some(EraValue::Shelley));
    assert_eq!(era_from_tag(3), Some(EraValue::Allegra));
    assert_eq!(era_from_tag(4), Some(EraValue::Mary));
    assert_eq!(era_from_tag(5), Some(EraValue::Alonzo));
    assert_eq!(era_from_tag(6), Some(EraValue::Babbage));
    assert_eq!(era_from_tag(7), Some(EraValue::Conway));
    assert_eq!(era_from_tag(8), None);
    assert_eq!(era_from_tag(u64::MAX), None);
}
