use vstd::prelude::*;
use crate::block::{BlockGlobalInfo, DecodedBlock};
use crate::catalyst_txn::{Model, ModelV};
use crate::decode::{DecodeError, decode_block, spec_decode_ok};
use crate::era::EraValue;
use crate::exec::{ExecutionPlan, PlanNode, execute_plan, spec_metas};
use crate::hexcodec::{decode_hex, spec_hex_bytes, spec_is_hex_str};
use crate::perf::{PerfAggregator, Stage, TaskPerfAggregator};
use crate::plan::spec_slot_written;
use crate::store::{BlockRowV, ChainStore, ChainStoreV, Point, clone_bytes};
use crate::task::{ChainTask, SlotValueV, TaskConfig, TaskFailure, TaskKind, slot_views};
use crate::trusted::{duration_nanos, instant_elapsed, instant_now};

verus! {

/// An event of the inbound chain stream: a block arrival with its raw
/// payload and chain coordinates, or an instruction to roll back to a
/// given chain position.
pub enum CardanoEventType {
    Block {
        cbor_hex: String,
        epoch: Option<u64>,
        epoch_slot: Option<u64>,
        block_number: u64,
        block_hash: String,
        block_slot: u64,
    },
    RollBack {
        block_slot: u64,
        block_hash: String,
    },
}

/// Why the controller refused an event.
#[derive(Debug)]
pub enum ProcessError {
    /// A hexadecimal field of the event is malformed.
    InvalidHex,
    /// The raw block could not be decoded.
    Decode(DecodeError),
    /// A block with the same hash is already persisted.
    DuplicateBlock,
    /// A task failed; the transaction was abandoned whole.
    Task(TaskFailure),
    /// An identifier space is exhausted.
    StoreFull,
    /// A rollback named a hash that is not persisted while more than one
    /// block is: an unrecoverable consistency violation.
    RollbackTargetNotFound,
}

/// Why streaming could not start.
#[derive(Debug)]
pub enum StartError {
    /// The requested resume hash is malformed.
    InvalidHex,
    /// The requested resume hash is not persisted.
    HashNotFound,
    /// The one-time genesis bootstrap failed; nothing can be processed.
    Genesis(GenesisError),
}

/// A failure of the genesis bootstrap collaborator.
#[derive(Debug)]
pub struct GenesisError {}

/// The collaborator that populates initial state when no block is
/// persisted yet. The controller runs it exactly once, on a start with an
/// empty store; it must leave the store well formed.
pub trait GenesisBootstrap {
    fn bootstrap(&mut self, store: &mut ChainStore, network: &String) -> (r: Result<
        (),
        GenesisError,
    >)
        requires
            old(store)@.wf(),
        ensures
            final(store)@.wf(),
            r is Ok ==> final(store)@.blocks.len() > 0,
    ;
}

/// A genesis bootstrap that seeds one block row with the given
/// coordinates.
pub struct SeedGenesis {
    pub hash: Vec<u8>,
    pub slot: u64,
    pub block_number: u64,
}

impl GenesisBootstrap for SeedGenesis {
    fn bootstrap(&mut self, store: &mut ChainStore, network: &String) -> (r: Result<
        (),
        GenesisError,
    >) {
        let _ = network;
        if store.next_block_id >= u64::MAX {
            return Err(GenesisError {});
        }
        match store.insert_block(clone_bytes(&self.hash), self.slot, EraValue::Byron, self.block_number) {
            Ok(_) => Ok(()),
            Err(_) => Err(GenesisError {}),
        }
    }
}

/// The totals reported when an epoch ends.
#[derive(Clone, Copy, Debug, PartialEq, Eq, Structural)]
pub struct EpochSummary {
    /// The epoch that ended.
    pub epoch: u64,
    /// Wall-clock nanoseconds the epoch took.
    pub epoch_nanos: u64,
    /// Nanoseconds spent inside tasks over the epoch.
    pub task_nanos: u64,
}

/// Whether a block tagged `epoch` crosses an epoch boundary given the
/// last epoch observed: only a strictly greater epoch does, and the first
/// epoch ever seen does not.
pub open spec fn spec_epoch_boundary(last: Option<u64>, epoch: Option<u64>) -> bool {
    match (last, epoch) {
        (Some(l), Some(e)) => e > l,
        _ => false,
    }
}

/// The last epoch observed after a block tagged `epoch` is processed.
pub open spec fn spec_epoch_update(last: Option<u64>, epoch: Option<u64>) -> Option<u64> {
    match (last, epoch) {
        (None, Some(e)) => Some(e),
        (Some(l), Some(e)) => if e > l {
            Some(e)
        } else {
            Some(l)
        },
        (l, None) => l,
    }
}

/// The epoch-boundary reset fires at most once per epoch value: after a
/// boundary fires for `e`, a second block of epoch `e` fires none.
pub proof fn lemma_epoch_reset_once(last: Option<u64>, e: u64)
    ensures
        spec_epoch_boundary(last, Some(e)) ==> !spec_epoch_boundary(
            spec_epoch_update(last, Some(e)),
            Some(e),
        ),
{
}

/// The epoch-boundary reset never fires on the first block seen after
/// startup, whatever epoch it carries.
pub proof fn lemma_epoch_no_reset_at_startup(epoch: Option<u64>)
    ensures
        !spec_epoch_boundary(None, epoch),
{
}

/// The records held by the slots of the first `t` scheduled positions, in
/// execution order.
pub open spec fn spec_collected(
    order: Seq<usize>,
    slots: Seq<SlotValueV>,
    t: int,
) -> Seq<ModelV>
    decreases t,
{
    if t <= 0 {
        Seq::empty()
    } else {
        let rest = spec_collected(order, slots, t - 1);
        match slots[order[t - 1] as int] {
            SlotValueV::Records(rs) => rest + rs,
            _ => rest,
        }
    }
}

/// The records `recs` with persistence identifiers assigned in order,
/// starting at `first_id`.
pub open spec fn spec_assigned(recs: Seq<ModelV>, first_id: u64) -> Seq<ModelV> {
    Seq::new(recs.len(), |i: int| crate::store::record_with_id(recs[i], (first_id + i) as u64))
}

/// The row an arrival would be persisted under: the next free block
/// identifier, the event's hash, slot and height, and the era the
/// decoded model carries.
pub open spec fn spec_arrival_row(
    store: ChainStoreV,
    bytes: Seq<u8>,
    hashv: Seq<u8>,
    block_number: u64,
    block_slot: u64,
) -> BlockRowV {
    BlockRowV {
        id: store.next_block_id,
        hash: hashv,
        slot: block_slot,
        era: crate::decode::spec_decoded_model(bytes).era,
        block_number,
    }
}

/// What the plan's run yields for an arrival: the executor over the
/// decoded model, the arrival's row and global info, and the store as it
/// stands.
pub open spec fn spec_arrival_run(
    plan: ExecutionPlan<TaskKind>,
    store: ChainStoreV,
    cfg: TaskConfig,
    bytes: Seq<u8>,
    hashv: Seq<u8>,
    epoch: Option<u64>,
    epoch_slot: Option<u64>,
    block_number: u64,
    block_slot: u64,
) -> Result<Seq<SlotValueV>, TaskFailure> {
    crate::exec::spec_execute_plan(
        plan,
        crate::decode::spec_decoded_model(bytes),
        (BlockGlobalInfo { era: crate::decode::spec_decoded_model(bytes).era, epoch, epoch_slot }),
        spec_arrival_row(store, bytes, hashv, block_number, block_slot),
        store,
        cfg,
    )
}

/// The records an arrival's run asks to persist, in execution order;
/// empty where the run fails.
pub open spec fn spec_arrival_records(
    plan: ExecutionPlan<TaskKind>,
    store: ChainStoreV,
    cfg: TaskConfig,
    bytes: Seq<u8>,
    hashv: Seq<u8>,
    epoch: Option<u64>,
    epoch_slot: Option<u64>,
    block_number: u64,
    block_slot: u64,
) -> Seq<ModelV> {
    match spec_arrival_run(plan, store, cfg, bytes, hashv, epoch, epoch_slot, block_number, block_slot) {
        Ok(slots) => spec_collected(plan.order@, slots, plan.order@.len() as int),
        Err(_) => Seq::empty(),
    }
}

/// When a block arrival is owed success: the payload decodes (standard or
/// fallback), the hash is new, block-identifier space remains, the plan's
/// run succeeds, and (outside read-only mode) the run's records fit the
/// record-identifier space.
pub open spec fn spec_arrival_ok(
    plan: ExecutionPlan<TaskKind>,
    store: ChainStoreV,
    cfg: TaskConfig,
    bytes: Seq<u8>,
    hashv: Seq<u8>,
    epoch: Option<u64>,
    epoch_slot: Option<u64>,
    block_number: u64,
    block_slot: u64,
) -> bool {
    &&& crate::decode::spec_decode_ok(bytes)
    &&& !store.has_hash(hashv)
    &&& store.next_block_id < u64::MAX
    &&& spec_arrival_run(plan, store, cfg, bytes, hashv, epoch, epoch_slot, block_number, block_slot) is Ok
    &&& (cfg.readonly || store.next_record_id + spec_arrival_records(
        plan,
        store,
        cfg,
        bytes,
        hashv,
        epoch,
        epoch_slot,
        block_number,
        block_slot,
    ).len() <= u64::MAX)
}

/// Over a plan of the library's tasks run in non-read-only mode, every
/// block-row slot a successful run produces carries the row handed in,
/// and every record batch is owned by that row: nothing a run yields
/// names another block.
pub proof fn lemma_taskkind_outputs(
    nodes: Seq<PlanNode<TaskKind>>,
    block: crate::block::DecodedBlockV,
    info: BlockGlobalInfo,
    row: BlockRowV,
    store: ChainStoreV,
    cfg: TaskConfig,
    sched: Seq<usize>,
)
    requires
        !cfg.readonly,
        forall|u: int| 0 <= u < sched.len() ==> (#[trigger] sched[u]) < nodes.len(),
        crate::exec::spec_run_sched(nodes, block, info, row, store, cfg, sched) is Ok,
    ensures
        ({
            let slots = crate::exec::spec_run_sched(
                nodes,
                block,
                info,
                row,
                store,
                cfg,
                sched,
            )->Ok_0;
            &&& slots.len() == nodes.len()
            &&& forall|k: int|
                0 <= k < slots.len() ==> match #[trigger] slots[k] {
                    SlotValueV::Absent => true,
                    SlotValueV::BlockRow(b) => b == row,
                    SlotValueV::Records(rs) => forall|m: int|
                        0 <= m < rs.len() ==> (#[trigger] rs[m]).block_id == row.id,
                }
        }),
    decreases sched.len(),
{
    if sched.len() == 0 {
    } else {
        let prev = crate::exec::spec_run_sched(
            nodes,
            block,
            info,
            row,
            store,
            cfg,
            sched.drop_last(),
        );
        assert(prev is Ok);
        lemma_taskkind_outputs(nodes, block, info, row, store, cfg, sched.drop_last());
        let slots_prev = prev->Ok_0;
        let k = sched.last() as int;
        let inputs = crate::exec::spec_inputs_of(nodes, slots_prev, k);
        let res = nodes[k].task.spec_execute(block, info, row, store, cfg, inputs);
        assert(res is Ok);
        let v = res->Ok_0;
        assert forall|q: int|
            0 <= q < slots_prev.update(k, v).len() implies match #[trigger] slots_prev.update(
            k,
            v,
        )[q] {
            SlotValueV::Absent => true,
            SlotValueV::BlockRow(b) => b == row,
            SlotValueV::Records(rs) => forall|m: int|
                0 <= m < rs.len() ==> (#[trigger] rs[m]).block_id == row.id,
        } by {
            if q == k {
                match nodes[k].task {
                    TaskKind::MultieraBlock(t) => {},
                    TaskKind::Catalyst(t) => {
                        if inputs.len() >= 1 {
                            match inputs[0] {
                                SlotValueV::BlockRow(dbrow) => {
                                    assert(dbrow == row) by {
                                        let slot = nodes[k].meta@.reads[0];
                                        if spec_slot_written(spec_metas(nodes), slot) {
                                            let wi = crate::exec::spec_writer_index(
                                                spec_metas(nodes),
                                                slot,
                                            );
                                            assert(0 <= wi < nodes.len() && spec_metas(
                                                nodes,
                                            )[wi].writes == slot);
                                            assert(inputs[0] == slots_prev[wi]);
                                        }
                                    }
                                    assert(v == SlotValueV::Records(
                                        crate::task::spec_catalyst_records(
                                            block,
                                            row.id,
                                            block.txs.len() as int,
                                        ),
                                    ));
                                    lemma_catalyst_records_owned(
                                        block,
                                        row.id,
                                        block.txs.len() as int,
                                    );
                                },
                                _ => {},
                            }
                        }
                    },
                }
            }
        }
    }
}

/// Every record the Catalyst extraction yields is owned by the block it
/// was given.
proof fn lemma_catalyst_records_owned(block: crate::block::DecodedBlockV, block_id: u64, n: int)
    ensures
        forall|m: int|
            0 <= m < crate::task::spec_catalyst_records(block, block_id, n).len() ==> (
            #[trigger] crate::task::spec_catalyst_records(block, block_id, n)[m]).block_id
                == block_id,
    decreases n,
{
    if n > 0 {
        lemma_catalyst_records_owned(block, block_id, n - 1);
        let rest = crate::task::spec_catalyst_records(block, block_id, n - 1);
        let cur = crate::task::spec_catalyst_records(block, block_id, n);
        assert forall|m: int| 0 <= m < cur.len() implies (#[trigger] cur[m]).block_id
            == block_id by {
            if crate::task::spec_tx_is_catalyst(block.txs[n - 1]) {
                if m < rest.len() {
                    assert(cur[m] == rest[m]);
                } else {
                    assert(cur[m] == crate::task::spec_catalyst_record(
                        block.txs[n - 1],
                        n - 1,
                        block.invalid_transactions,
                        block_id,
                    ));
                }
            } else {
                assert(cur[m] == rest[m]);
            }
        }
    }
}

/// Every record collected from slots whose record batches are owned by
/// `bid` is owned by `bid`.
proof fn lemma_collected_owned(order: Seq<usize>, slots: Seq<SlotValueV>, t: int, bid: u64)
    requires
        forall|k: int|
            0 <= k < slots.len() ==> match #[trigger] slots[k] {
                SlotValueV::Absent => true,
                SlotValueV::BlockRow(b) => true,
                SlotValueV::Records(rs) => forall|m: int|
                    0 <= m < rs.len() ==> (#[trigger] rs[m]).block_id == bid,
            },
        forall|u: int| 0 <= u < order.len() ==> (#[trigger] order[u]) < slots.len(),
        t <= order.len(),
    ensures
        forall|m: int|
            0 <= m < spec_collected(order, slots, t).len() ==> (#[trigger] spec_collected(
                order,
                slots,
                t,
            )[m]).block_id == bid,
    decreases t,
{
    if t > 0 {
        lemma_collected_owned(order, slots, t - 1, bid);
        let rest = spec_collected(order, slots, t - 1);
        let cur = spec_collected(order, slots, t);
        assert(order[t - 1] < slots.len());
        assert forall|m: int| 0 <= m < cur.len() implies (#[trigger] cur[m]).block_id == bid by {
            match slots[order[t - 1] as int] {
                SlotValueV::Records(rs) => {
                    if m < rest.len() {
                        assert(cur[m] == rest[m]);
                    } else {
                        assert(cur[m] == rs[m - rest.len()]);
                    }
                },
                _ => {
                    assert(cur[m] == rest[m]);
                },
            }
        }
    }
}

/// Gathers the record batches held by the scheduled slots, in the plan's
/// execution order: what one block's run asks to persist.
pub fn collect_records(plan: &ExecutionPlan<TaskKind>, slots: &Vec<crate::task::SlotValue>) -> (r:
    Vec<Model>)
    requires
        plan.wf(),
        slots@.len() == plan.nodes@.len(),
    ensures
        r@.map_values(|m: Model| m@) == spec_collected(
            plan.order@,
            slot_views(slots@),
            plan.order@.len() as int,
        ),
{
    let mut out: Vec<Model> = Vec::new();
    let mut t: usize = 0;
    while t < plan.order.len()
        invariant
            plan.wf(),
            slots@.len() == plan.nodes@.len(),
            t <= plan.order@.len(),
            out@.map_values(|m: Model| m@) =~= spec_collected(
                plan.order@,
                slot_views(slots@),
                t as int,
            ),
        decreases plan.order@.len() - t,
    {
        let k = plan.order[t];
        match &slots[k] {
            crate::task::SlotValue::Records(rs) => {
                let mut i: usize = 0;
                while i < rs.len()
                    invariant
                        i <= rs.len(),
                        out@.map_values(|m: Model| m@) =~= spec_collected(
                            plan.order@,
                            slot_views(slots@),
                            t as int,
                        ) + rs@.map_values(|m: Model| m@).subrange(0, i as int),
                    decreases rs.len() - i,
                {
                    proof {
                        assert(rs@.map_values(|m: Model| m@).subrange(0, i + 1 as int)
                            =~= rs@.map_values(|m: Model| m@).subrange(0, i as int).push(
                            rs@.map_values(|m: Model| m@)[i as int],
                        ));
                    }
                    let d = rs[i].duplicate();
                    let ghost dv = d@;
                    let ghost pre_map = out@.map_values(|m: Model| m@);
                    out.push(d);
                    proof {
                        let om = out@.map_values(|m: Model| m@);
                        assert(om =~= pre_map.push(dv)) by {
                            assert forall|q: int| 0 <= q < om.len() implies om[q] == pre_map.push(
                                dv,
                            )[q] by {
                                if q < om.len() - 1 {
                                    assert(om[q] == out@[q]@);
                                }
                            }
                        }
                        assert(dv == rs@.map_values(|m: Model| m@)[i as int]);
                        let target = spec_collected(
                            plan.order@,
                            slot_views(slots@),
                            t as int,
                        ) + rs@.map_values(|m: Model| m@).subrange(0, i + 1 as int);
                        assert(om =~= target);
                    }
                    i = i + 1;
                }
                proof {
                    assert(slot_views(slots@)[k as int] == slots@[k as int]@);
                    assert(rs@.map_values(|m: Model| m@).subrange(
                        0,
                        rs@.len() as int,
                    ) =~= rs@.map_values(|m: Model| m@));
                    assert(out@.map_values(|m: Model| m@) =~= spec_collected(
                        plan.order@,
                        slot_views(slots@),
                        t + 1 as int,
                    ));
                }
            },
            _ => {
                proof {
                    assert(slot_views(slots@)[k as int] == slots@[k as int]@);
                    assert(out@.map_values(|m: Model| m@) =~= spec_collected(
                        plan.order@,
                        slot_views(slots@),
                        t + 1 as int,
                    ));
                }
            },
        }
        t = t + 1;
    }
    out
}

/// The ingestion controller: consumes the ordered event stream, resolves
/// the resume point at start, runs decode and the execution plan for each
/// block arrival inside one compute-then-commit transaction, deletes past
/// the target on rollback, and gates performance reporting on epoch
/// boundaries.
pub struct CardanoSink {
    pub store: ChainStore,
    pub network: String,
    pub exec_plan: ExecutionPlan<TaskKind>,
    pub config: TaskConfig,
    pub last_epoch: Option<u64>,
    pub epoch_start: std::time::Instant,
    pub task_perf: TaskPerfAggregator,
    pub last_summary: Option<EpochSummary>,
}

impl CardanoSink {
    /// The controller's invariant: the store is well formed and the
    /// per-task accumulators match the plan.
    pub open spec fn wf(self) -> bool {
        &&& self.store@.wf()
        &&& self.exec_plan.wf()
        &&& self.task_perf.task_nanos@.len() == self.exec_plan.nodes@.len()
    }

    /// A controller over an empty store.
    pub fn new(network: String, exec_plan: ExecutionPlan<TaskKind>, config: TaskConfig) -> (r:
        CardanoSink)
        requires
            exec_plan.wf(),
        ensures
            r.wf(),
            r.store@.blocks.len() == 0,
            r.store@.records.len() == 0,
            r.last_epoch is None,
            r.last_summary is None,
            r.exec_plan == exec_plan,
            r.config == config,
            r.network == network,
            r.task_perf.task_nanos@.len() == exec_plan.nodes@.len(),
            forall|i: int|
                0 <= i < exec_plan.nodes@.len() ==> (#[trigger] r.task_perf.task_nanos@[i]) == 0,
    {
        let n = exec_plan.nodes.len();
        CardanoSink {
            store: ChainStore::new(),
            network,
            exec_plan,
            config,
            last_epoch: None,
            epoch_start: instant_now(),
            task_perf: TaskPerfAggregator::new(n),
            last_summary: None,
        }
    }

    /// The newest persisted points, newest first, at most `count` of
    /// them.
    pub fn get_latest_points(&self, count: u64) -> (r: Vec<Point>)
        requires
            self.wf(),
        ensures
            r@.len() == vstd::math::min(count as int, self.store@.blocks.len() as int),
            forall|i: int|
                0 <= i < r@.len() ==> {
                    let b = self.store@.blocks[self.store@.blocks.len() - 1 - i];
                    (#[trigger] r@[i]).slot_nb == b.slot && r@[i].hash@ == b.hash
                },
    {
        let mut r: Vec<Point> = Vec::new();
        let n = self.store.count_blocks();
        let mut taken: usize = 0;
        while taken < n && (taken as u64) < count
            invariant
                self.wf(),
                n == self.store@.blocks.len(),
                taken <= n,
                taken as u64 <= count,
                r@.len() == taken,
                forall|i: int|
                    0 <= i < taken ==> {
                        let b = self.store@.blocks[self.store@.blocks.len() - 1 - i];
                        (#[trigger] r@[i]).slot_nb == b.slot && r@[i].hash@ == b.hash
                    },
            decreases n - taken,
        {
            let b = self.store.block_at(n - 1 - taken);
            r.push(Point { slot_nb: b.slot, hash: clone_bytes(&b.hash) });
            taken = taken + 1;
        }
        r
    }

    /// The newest persisted point, if any.
    pub fn get_latest_point(&self) -> (r: Vec<Point>)
        requires
            self.wf(),
        ensures
            self.store@.blocks.len() == 0 ==> r@.len() == 0,
            self.store@.blocks.len() > 0 ==> r@.len() == 1 && r@[0].slot_nb
                == self.store@.blocks.last().slot && r@[0].hash@ == self.store@.blocks.last().hash,
    {
        self.get_latest_points(1)
    }

    /// The resume point for a caller-supplied hash: the point immediately
    /// before the persisted block carrying it, because the upstream
    /// source resumes after the point it is given. Empty when the matched
    /// block is the oldest one. A hash that is not persisted is fatal.
    pub fn get_specific_point(&self, block_hash: &String) -> (r: Result<Vec<Point>, StartError>)
        requires
            self.wf(),
        ensures
            !spec_is_hex_str(block_hash@) ==> (r matches Err(StartError::InvalidHex)),
            spec_is_hex_str(block_hash@) && !self.store@.has_hash(spec_hex_bytes(block_hash@))
                ==> (r matches Err(StartError::HashNotFound)),
            spec_is_hex_str(block_hash@) && self.store@.has_hash(spec_hex_bytes(block_hash@))
                ==> r is Ok,
            r is Ok ==> spec_is_hex_str(block_hash@) && self.store@.has_hash(
                spec_hex_bytes(block_hash@),
            ),
            r is Ok ==> {
                let i = choose|i: int|
                    0 <= i < self.store@.blocks.len() && (#[trigger] self.store@.blocks[i]).hash
                        == spec_hex_bytes(block_hash@);
                &&& (i == 0 ==> r->Ok_0@.len() == 0)
                &&& (i > 0 ==> r->Ok_0@.len() == 1 && r->Ok_0@[0].slot_nb
                    == self.store@.blocks[i - 1].slot && r->Ok_0@[0].hash@
                    == self.store@.blocks[i - 1].hash)
            },
    {
        let hash = match decode_hex(block_hash.as_str()) {
            Ok(h) => h,
            Err(_) => {
                return Err(StartError::InvalidHex);
            },
        };
        let i = match self.store.find_block_by_hash(&hash) {
            Some(i) => i,
            None => {
                return Err(StartError::HashNotFound);
            },
        };
        proof {
            let j = choose|j: int|
                0 <= j < self.store@.blocks.len() && (#[trigger] self.store@.blocks[j]).hash
                    == spec_hex_bytes(block_hash@);
            if j != i as int {
                assert(self.store@.blocks[j].hash == self.store@.blocks[i as int].hash);
            }
        }
        let mut r: Vec<Point> = Vec::new();
        match self.store.point_before(i) {
            Some(p) => {
                r.push(p);
            },
            None => {},
        }
        Ok(r)
    }

    /// Resolves where streaming resumes. With a caller-supplied hash, the
    /// point immediately before the matched block; a hash that is not
    /// persisted is fatal. With none, the newest persisted point; when
    /// nothing is persisted, the one-time genesis bootstrap runs first
    /// and the resume point is whatever is newest afterwards.
    pub fn start_from<G: GenesisBootstrap>(&mut self, from: Option<String>, genesis: &mut G) -> (r:
        Result<Vec<Point>, StartError>)
        requires
            old(self).wf(),
        ensures
            final(self).wf(),
            final(self).exec_plan == old(self).exec_plan,
            from is Some ==> final(self).store@ == old(self).store@,
            from matches Some(h) ==> {
                let hv = h@;
                &&& (!spec_is_hex_str(hv) ==> (r matches Err(StartError::InvalidHex)))
                &&& ((spec_is_hex_str(hv) && !old(self).store@.has_hash(spec_hex_bytes(hv))) ==> (
                r matches Err(StartError::HashNotFound)))
                &&& ((spec_is_hex_str(hv) && old(self).store@.has_hash(spec_hex_bytes(hv))) ==> r
                    is Ok)
                &&& (r is Ok ==> {
                    let i = choose|i: int|
                        0 <= i < old(self).store@.blocks.len() && (#[trigger] old(
                            self,
                        ).store@.blocks[i]).hash == spec_hex_bytes(hv);
                    &&& (i == 0 ==> r->Ok_0@.len() == 0)
                    &&& (i > 0 ==> r->Ok_0@.len() == 1 && r->Ok_0@[0].slot_nb == old(
                        self,
                    ).store@.blocks[i - 1].slot && r->Ok_0@[0].hash@ == old(
                        self,
                    ).store@.blocks[i - 1].hash)
                })
            },
            from is None && old(self).store@.blocks.len() > 0 ==> ((r is Ok) && final(self).store@
                == old(self).store@ && r->Ok_0@.len() == 1 && r->Ok_0@[0].slot_nb == old(
                self,
            ).store@.blocks.last().slot && r->Ok_0@[0].hash@ == old(
                self,
            ).store@.blocks.last().hash),
            (from is None && old(self).store@.blocks.len() == 0 && r is Ok) ==> ({
                &&& final(self).store@.blocks.len() > 0
                &&& r->Ok_0@.len() == 1
                &&& r->Ok_0@[0].slot_nb == final(self).store@.blocks.last().slot
                &&& r->Ok_0@[0].hash@ == final(self).store@.blocks.last().hash
            }),
            r matches Err(StartError::Genesis(_)) ==> from is None && old(
                self,
            ).store@.blocks.len() == 0,
    {
        match from {
            Some(h) => self.get_specific_point(&h),
            None => {
                if self.store.count_blocks() == 0 {
                    match genesis.bootstrap(&mut self.store, &self.network) {
                        Ok(()) => {},
                        Err(e) => {
                            return Err(StartError::Genesis(e));
                        },
                    }
                }
                Ok(self.get_latest_point())
            },
        }
    }

    /// Releases the controller. Nothing beyond normal cleanup is needed.
    pub fn stop(self) -> (r: Result<(), ()>)
        ensures
            r is Ok,
    {
        Ok(())
    }

    /// Processes one block arrival inside one compute-then-commit
    /// transaction: decode the payload (standard path or header-only
    /// fallback), run the execution plan, and only on full success
    /// persist the block row and, outside read-only mode, every record
    /// the tasks produced, in execution order. Any failure leaves the
    /// store exactly as it was.
    pub fn insert_block(
        &mut self,
        cbor_hex: &String,
        epoch: Option<u64>,
        epoch_slot: Option<u64>,
        block_number: u64,
        block_hash: &String,
        block_slot: u64,
        perf_aggregator: &mut PerfAggregator,
    ) -> (r: Result<(), ProcessError>)
        requires
            old(self).wf(),
        ensures
            final(self).wf(),
            final(self).exec_plan == old(self).exec_plan,
            final(self).config == old(self).config,
            final(self).last_epoch == old(self).last_epoch,
            final(self).last_summary == old(self).last_summary,
            r is Err ==> final(self).store@ == old(self).store@,
            !spec_is_hex_str(cbor_hex@) ==> (r matches Err(ProcessError::InvalidHex)),
            spec_is_hex_str(cbor_hex@) && !spec_is_hex_str(block_hash@) ==> (r matches Err(
                ProcessError::InvalidHex,
            )),
            (spec_is_hex_str(cbor_hex@) && spec_is_hex_str(block_hash@) && !spec_decode_ok(
                spec_hex_bytes(cbor_hex@),
            )) ==> (r matches Err(ProcessError::Decode(_))),
            (spec_is_hex_str(cbor_hex@) && spec_is_hex_str(block_hash@)) ==> (r is Ok
                <==> spec_arrival_ok(
                old(self).exec_plan,
                old(self).store@,
                old(self).config,
                spec_hex_bytes(cbor_hex@),
                spec_hex_bytes(block_hash@),
                epoch,
                epoch_slot,
                block_number,
                block_slot,
            )),
            r is Ok ==> {
                let bytes = spec_hex_bytes(cbor_hex@);
                let hashv = spec_hex_bytes(block_hash@);
                let collected = spec_arrival_records(
                    old(self).exec_plan,
                    old(self).store@,
                    old(self).config,
                    bytes,
                    hashv,
                    epoch,
                    epoch_slot,
                    block_number,
                    block_slot,
                );
                &&& spec_is_hex_str(cbor_hex@)
                &&& spec_is_hex_str(block_hash@)
                &&& spec_decode_ok(bytes)
                &&& !old(self).store@.has_hash(hashv)
                &&& final(self).store@.blocks.len() == old(self).store@.blocks.len() + 1
                &&& final(self).store@.blocks.last() == spec_arrival_row(
                    old(self).store@,
                    bytes,
                    hashv,
                    block_number,
                    block_slot,
                )
                &&& final(self).store@.next_block_id == old(self).store@.next_block_id + 1
                &&& forall|i: int|
                    0 <= i < old(self).store@.blocks.len() ==> final(self).store@.blocks[i] == old(
                        self,
                    ).store@.blocks[i]
                &&& (old(self).config.readonly ==> final(self).store@.records == old(
                    self,
                ).store@.records && final(self).store@.next_record_id == old(
                    self,
                ).store@.next_record_id)
                &&& (!old(self).config.readonly ==> ({
                    &&& final(self).store@.records.len() == old(self).store@.records.len()
                        + collected.len()
                    &&& final(self).store@.records =~= old(self).store@.records
                        + spec_assigned(collected, old(self).store@.next_record_id)
                    &&& final(self).store@.next_record_id == old(self).store@.next_record_id
                        + collected.len()
                }))
                &&& forall|i: int|
                    0 <= i < old(self).store@.records.len() ==> final(self).store@.records[i]
                        == old(self).store@.records[i]
                &&& forall|i: int|
                    old(self).store@.records.len() <= i < final(self).store@.records.len() ==> (
                    #[trigger] final(self).store@.records[i]).block_id == old(
                        self,
                    ).store@.next_block_id
            },
            final(perf_aggregator).block_fetch == old(perf_aggregator).block_fetch,
            final(perf_aggregator).rollback == old(perf_aggregator).rollback,
            final(perf_aggregator).overhead == old(perf_aggregator).overhead,
            final(perf_aggregator).block_parse >= old(perf_aggregator).block_parse,
            final(self).task_perf.task_nanos@.len() == old(self).task_perf.task_nanos@.len(),
            forall|i: int|
                0 <= i < old(self).task_perf.task_nanos@.len()
                    ==> (#[trigger] final(self).task_perf.task_nanos@[i]) >= old(
                    self,
                ).task_perf.task_nanos@[i],
    {
        let block_parse_start = instant_now();
        let bytes = match decode_hex(cbor_hex.as_str()) {
            Ok(b) => b,
            Err(_) => {
                return Err(ProcessError::InvalidHex);
            },
        };
        let hash = match decode_hex(block_hash.as_str()) {
            Ok(h) => h,
            Err(_) => {
                return Err(ProcessError::InvalidHex);
            },
        };
        let (block, _path) = match decode_block(&bytes) {
            Ok(p) => p,
            Err(e) => {
                return Err(ProcessError::Decode(e));
            },
        };
        let d = instant_elapsed(&block_parse_start);
        perf_aggregator.record(Stage::BlockParse, duration_nanos(&d));
        proof {
            let bytesv = spec_hex_bytes(cbor_hex@);
            let hashv = spec_hex_bytes(block_hash@);
            assert(bytes@ == bytesv);
            assert(hash@ == hashv);
            assert(block@ == crate::decode::spec_decoded_model(bytesv));
            assert((BlockGlobalInfo { era: block.era, epoch, epoch_slot }) == (BlockGlobalInfo {
                era: crate::decode::spec_decoded_model(bytesv).era,
                epoch,
                epoch_slot,
            }));
            assert((BlockRowV {
                id: self.store@.next_block_id,
                hash: hash@,
                slot: block_slot,
                era: block@.era,
                block_number,
            }) == spec_arrival_row(self.store@, bytesv, hashv, block_number, block_slot));
        }
        let r = self.commit_decoded(&block, hash, epoch, epoch_slot, block_number, block_slot);
        proof {
            let bytesv = spec_hex_bytes(cbor_hex@);
            let hashv = spec_hex_bytes(block_hash@);
            let info_c = (BlockGlobalInfo { era: block.era, epoch, epoch_slot });
            let row_c = (BlockRowV {
                id: old(self).store@.next_block_id,
                hash: hashv,
                slot: block_slot,
                era: block@.era,
                block_number,
            });
            let runres = crate::exec::spec_execute_plan(
                old(self).exec_plan,
                block@,
                info_c,
                row_c,
                old(self).store@,
                old(self).config,
            );
            assert(runres == spec_arrival_run(
                old(self).exec_plan,
                old(self).store@,
                old(self).config,
                bytesv,
                hashv,
                epoch,
                epoch_slot,
                block_number,
                block_slot,
            ));
            if r is Ok {
                assert(runres is Ok);
                let commit_coll = spec_collected(
                    old(self).exec_plan.order@,
                    if runres is Ok {
                        runres->Ok_0
                    } else {
                        Seq::empty()
                    },
                    old(self).exec_plan.order@.len() as int,
                );
                let coll = spec_arrival_records(
                    old(self).exec_plan,
                    old(self).store@,
                    old(self).config,
                    bytesv,
                    hashv,
                    epoch,
                    epoch_slot,
                    block_number,
                    block_slot,
                );
                assert(commit_coll == coll);
                if !old(self).config.readonly {
                    assert(spec_assigned(commit_coll, old(self).store@.next_record_id)
                        == spec_assigned(coll, old(self).store@.next_record_id));
                }
            }
        }
        r
    }

    /// Commits one decoded block: builds the row it will be persisted
    /// under, runs the execution plan against it, and, only on full
    /// success, persists the row and (outside read-only mode) every
    /// record the run produced, in execution order. Success is owed
    /// exactly when the hash is new, identifier space remains, the run
    /// succeeds, and the produced records fit the record identifier
    /// space; any failure leaves the store exactly as it was.
    pub fn commit_decoded(
        &mut self,
        block: &DecodedBlock,
        hash: Vec<u8>,
        epoch: Option<u64>,
        epoch_slot: Option<u64>,
        block_number: u64,
        block_slot: u64,
    ) -> (r: Result<(), ProcessError>)
        requires
            old(self).wf(),
        ensures
            final(self).wf(),
            final(self).exec_plan == old(self).exec_plan,
            final(self).config == old(self).config,
            final(self).last_epoch == old(self).last_epoch,
            final(self).last_summary == old(self).last_summary,
            r is Err ==> final(self).store@ == old(self).store@,
            ({
                let row = (BlockRowV {
                    id: old(self).store@.next_block_id,
                    hash: hash@,
                    slot: block_slot,
                    era: block@.era,
                    block_number,
                });
                let info = (BlockGlobalInfo { era: block.era, epoch, epoch_slot });
                let runres = crate::exec::spec_execute_plan(
                    old(self).exec_plan,
                    block@,
                    info,
                    row,
                    old(self).store@,
                    old(self).config,
                );
                let n_records = spec_collected(
                    old(self).exec_plan.order@,
                    if runres is Ok { runres->Ok_0 } else { Seq::empty() },
                    old(self).exec_plan.order@.len() as int,
                ).len();
                &&& ((r matches Err(ProcessError::DuplicateBlock)) <==> old(
                    self,
                ).store@.has_hash(hash@))
                &&& (r is Ok <==> (!old(self).store@.has_hash(hash@) && old(
                    self,
                ).store@.next_block_id < u64::MAX && runres is Ok && (old(self).config.readonly
                    || old(self).store@.next_record_id + n_records <= u64::MAX)))
                &&& ((!old(self).store@.has_hash(hash@) && old(self).store@.next_block_id
                    < u64::MAX && runres is Err) ==> r == Err::<(), ProcessError>(
                    ProcessError::Task(runres->Err_0),
                ))
                &&& ((r is Ok && !old(self).config.readonly) ==> ({
                    let collected = spec_collected(
                        old(self).exec_plan.order@,
                        if runres is Ok {
                            runres->Ok_0
                        } else {
                            Seq::empty()
                        },
                        old(self).exec_plan.order@.len() as int,
                    );
                    &&& final(self).store@.records.len() == old(self).store@.records.len()
                        + collected.len()
                    &&& final(self).store@.records =~= old(self).store@.records
                        + spec_assigned(collected, old(self).store@.next_record_id)
                    &&& final(self).store@.next_record_id == old(self).store@.next_record_id
                        + collected.len()
                }))
                &&& ((r is Ok && old(self).config.readonly)
                    ==> final(self).store@.next_record_id == old(self).store@.next_record_id)
                &&& (r is Ok ==> final(self).store@.next_block_id == old(
                    self,
                ).store@.next_block_id + 1)
                &&& (r is Ok ==> final(self).store@.blocks.last() == row)
            }),
            final(self).task_perf.task_nanos@.len() == old(self).task_perf.task_nanos@.len(),
            forall|i: int|
                0 <= i < old(self).task_perf.task_nanos@.len()
                    ==> (#[trigger] final(self).task_perf.task_nanos@[i]) >= old(
                    self,
                ).task_perf.task_nanos@[i],
            r is Ok ==> {
                let hashv = hash@;
                &&& !old(self).store@.has_hash(hashv)
                &&& final(self).store@.blocks.len() == old(self).store@.blocks.len() + 1
                &&& final(self).store@.blocks.last().hash == hashv
                &&& final(self).store@.blocks.last().slot == block_slot
                &&& final(self).store@.blocks.last().era == block@.era
                &&& final(self).store@.blocks.last().block_number == block_number
                &&& final(self).store@.blocks.last().id == old(self).store@.next_block_id
                &&& forall|i: int|
                    0 <= i < old(self).store@.blocks.len() ==> final(self).store@.blocks[i] == old(
                        self,
                    ).store@.blocks[i]
                &&& old(self).config.readonly ==> final(self).store@.records == old(
                    self,
                ).store@.records
                &&& final(self).store@.records.len() >= old(self).store@.records.len()
                &&& forall|i: int|
                    0 <= i < old(self).store@.records.len() ==> final(self).store@.records[i]
                        == old(self).store@.records[i]
                &&& forall|i: int|
                    old(self).store@.records.len() <= i < final(self).store@.records.len() ==> (
                    #[trigger] final(self).store@.records[i]).block_id == old(
                        self,
                    ).store@.next_block_id
            },
    {
        if let Some(_) = self.store.find_block_by_hash(&hash) {
            return Err(ProcessError::DuplicateBlock);
        }
        if self.store.next_block_id >= u64::MAX {
            return Err(ProcessError::StoreFull);
        }
        let info = BlockGlobalInfo { era: block.era, epoch, epoch_slot };
        let row = crate::store::BlockRow {
            id: self.store.next_block_id,
            hash: clone_bytes(&hash),
            slot: block_slot,
            era: block.era,
            block_number,
        };
        let cfg = self.config;
        let slots = match execute_plan(
            &self.exec_plan,
            &block,
            &info,
            &row,
            &self.store,
            &cfg,
            &mut self.task_perf,
        ) {
            Ok(s) => s,
            Err(e) => {
                return Err(ProcessError::Task(e));
            },
        };
        if cfg.readonly {
            match self.store.insert_block(row.hash, block_slot, block.era, block_number) {
                Ok(_) => Ok(()),
                Err(_) => {
                    proof {
                        assert(false);
                    }
                    Err(ProcessError::DuplicateBlock)
                },
            }
        } else {
            proof {
                crate::exec::lemma_sched_bounded(
                    self.exec_plan.nodes@,
                    self.exec_plan.order@,
                    block@,
                    cfg,
                );
            }
            let records = collect_records(&self.exec_plan, &slots);
            proof {
                lemma_taskkind_outputs(
                    self.exec_plan.nodes@,
                    block@,
                    info,
                    row@,
                    self.store@,
                    cfg,
                    crate::exec::spec_sched(
                        self.exec_plan.nodes@,
                        self.exec_plan.order@,
                        block@,
                        cfg,
                    ),
                );
                lemma_collected_owned(
                    self.exec_plan.order@,
                    slot_views(slots@),
                    self.exec_plan.order@.len() as int,
                    row@.id,
                );
            }
            if records.len() > 0 && self.store.next_record_id > u64::MAX - records.len() as u64 {
                return Err(ProcessError::StoreFull);
            }
            let ghost pre_store = self.store@;
            let id = match self.store.insert_block(row.hash, block_slot, block.era, block_number) {
                Ok(id) => id,
                Err(_) => {
                    proof {
                        assert(false);
                    }
                    return Err(ProcessError::DuplicateBlock);
                },
            };
            proof {
                assert(self.store@.has_block_id(id)) by {
                    assert(self.store@.blocks.last().id == id);
                }
                assert forall|i: int|
                    0 <= i < records@.len() implies (#[trigger] records@[i])@.block_id == id by {
                    assert(records@.map_values(|m: Model| m@)[i].block_id == id);
                }
                assert forall|i: int|
                    0 <= i < self.store@.records.len() implies (
                    #[trigger] self.store@.records[i]).block_id <= id by {
                    assert(pre_store.records[i].block_id < pre_store.next_block_id);
                }
            }
            let ghost mid_store = self.store@;
            self.store.insert_records(&records, id);
            proof {
                assert forall|i: int|
                    mid_store.records.len() <= i < self.store@.records.len() implies (
                #[trigger] self.store@.records[i]).block_id == id by {
                    let j = i - mid_store.records.len();
                    assert(self.store@.records[i] == crate::store::record_with_id(
                        records@[j]@,
                        (mid_store.next_record_id + j) as u64,
                    ));
                    assert(records@[j]@.block_id == id);
                }
                assert(mid_store.records == pre_store.records);
                let coll = records@.map_values(|m: Model| m@);
                assert(self.store@.records =~= pre_store.records + spec_assigned(
                    coll,
                    pre_store.next_record_id,
                )) by {
                    assert forall|i: int|
                        0 <= i < self.store@.records.len() implies self.store@.records[i] == (
                    pre_store.records + spec_assigned(coll, pre_store.next_record_id))[i] by {
                        if i >= pre_store.records.len() {
                            let j = i - pre_store.records.len();
                            assert(self.store@.records[i] == crate::store::record_with_id(
                                records@[j]@,
                                (mid_store.next_record_id + j) as u64,
                            ));
                            assert(spec_assigned(coll, pre_store.next_record_id)[j]
                                == crate::store::record_with_id(
                                coll[j],
                                (pre_store.next_record_id + j) as u64,
                            ));
                        }
                    }
                }
            }
            Ok(())
        }
    }

    /// Processes one event of the stream. A block arrival first settles
    /// the epoch boundary: when the block's epoch strictly exceeds the
    /// last epoch observed — never on the first epoch seen after startup
    /// — the elapsed epoch's totals are finalized into a summary and both
    /// aggregators are reset, exactly once per epoch value, before the
    /// block is processed. A rollback deletes every block past the
    /// matched target, cascading to the records they own; a target that
    /// is not persisted is fatal when more than one block is, and a
    /// silent no-op otherwise.
    pub fn process(&mut self, event: CardanoEventType, perf_aggregator: &mut PerfAggregator) -> (r:
        Result<(), ProcessError>)
        requires
            old(self).wf(),
        ensures
            final(self).wf(),
            final(self).exec_plan == old(self).exec_plan,
            match event {
                CardanoEventType::Block {
                    cbor_hex,
                    epoch,
                    epoch_slot,
                    block_number,
                    block_hash,
                    block_slot,
                } => {
                    &&& final(self).last_epoch == spec_epoch_update(old(self).last_epoch, epoch)
                    &&& (spec_epoch_boundary(old(self).last_epoch, epoch)
                        ==> ((final(self).last_summary is Some)
                        && final(self).last_summary->Some_0.epoch == old(self).last_epoch->Some_0))
                    &&& (!spec_epoch_boundary(old(self).last_epoch, epoch)
                        ==> final(self).last_summary == old(self).last_summary)
                    &&& (r is Err ==> final(self).store@ == old(self).store@)
                    &&& (!spec_is_hex_str(cbor_hex@) ==> (r matches Err(ProcessError::InvalidHex)))
                    &&& ((spec_is_hex_str(cbor_hex@) && !spec_is_hex_str(block_hash@)) ==> (
                    r matches Err(ProcessError::InvalidHex)))
                    &&& ((spec_is_hex_str(cbor_hex@) && spec_is_hex_str(block_hash@)
                        && !crate::decode::spec_decode_ok(spec_hex_bytes(cbor_hex@))) ==> (
                    r matches Err(ProcessError::Decode(_))))
                    &&& ((spec_is_hex_str(cbor_hex@) && spec_is_hex_str(block_hash@)) ==> (r is Ok
                        <==> spec_arrival_ok(
                        old(self).exec_plan,
                        old(self).store@,
                        old(self).config,
                        spec_hex_bytes(cbor_hex@),
                        spec_hex_bytes(block_hash@),
                        epoch,
                        epoch_slot,
                        block_number,
                        block_slot,
                    )))
                    &&& (r is Ok ==> ({
                        let bytes = spec_hex_bytes(cbor_hex@);
                        let hashv = spec_hex_bytes(block_hash@);
                        let collected = spec_arrival_records(
                            old(self).exec_plan,
                            old(self).store@,
                            old(self).config,
                            bytes,
                            hashv,
                            epoch,
                            epoch_slot,
                            block_number,
                            block_slot,
                        );
                        &&& final(self).store@.blocks.len() == old(self).store@.blocks.len() + 1
                        &&& final(self).store@.blocks.last() == spec_arrival_row(
                            old(self).store@,
                            bytes,
                            hashv,
                            block_number,
                            block_slot,
                        )
                        &&& final(self).store@.next_block_id == old(self).store@.next_block_id + 1
                        &&& (forall|i: int|
                            0 <= i < old(self).store@.blocks.len() ==> final(self).store@.blocks[i] == old(self).store@.blocks[i])
                        &&& (old(self).config.readonly ==> final(self).store@.records == old(
                            self,
                        ).store@.records)
                        &&& (!old(self).config.readonly ==> final(self).store@.records =~= old(
                            self,
                        ).store@.records + spec_assigned(collected, old(self).store@.next_record_id))
                    }))
                    &&& (spec_epoch_boundary(old(self).last_epoch, epoch) ==> final(perf_aggregator).block_fetch == 0 && final(perf_aggregator).rollback == 0 && final(perf_aggregator).overhead == 0)
                    &&& (!spec_epoch_boundary(old(self).last_epoch, epoch) ==> final(perf_aggregator).block_fetch == old(perf_aggregator).block_fetch && final(perf_aggregator).rollback == old(perf_aggregator).rollback && final(perf_aggregator).overhead
                        == old(perf_aggregator).overhead && final(perf_aggregator).block_parse
                        >= old(perf_aggregator).block_parse)
                    &&& (!spec_epoch_boundary(old(self).last_epoch, epoch) ==> ((final(self).task_perf.task_nanos@.len() == old(self).task_perf.task_nanos@.len())
                        && (forall|i: int|
                        0 <= i < old(self).task_perf.task_nanos@.len()
                            ==> (#[trigger] final(self).task_perf.task_nanos@[i]) >= old(
                            self,
                        ).task_perf.task_nanos@[i])))
                },
                CardanoEventType::RollBack { block_slot, block_hash } => {
                    &&& final(self).last_epoch == old(self).last_epoch
                    &&& final(self).last_summary == old(self).last_summary
                    &&& final(perf_aggregator).block_fetch == old(perf_aggregator).block_fetch
                    &&& final(perf_aggregator).block_parse == old(perf_aggregator).block_parse
                    &&& final(perf_aggregator).overhead == old(perf_aggregator).overhead
                    &&& final(perf_aggregator).rollback >= old(perf_aggregator).rollback
                    &&& (!spec_is_hex_str(block_hash@) ==> (r matches Err(
                        ProcessError::InvalidHex,
                    )) && final(self).store@ == old(self).store@)
                    &&& (spec_is_hex_str(block_hash@) ==> {
                        let hashv = spec_hex_bytes(block_hash@);
                        if old(self).store@.has_hash(hashv) {
                            let i = choose|i: int|
                                0 <= i < old(self).store@.blocks.len() && (#[trigger] old(
                                    self,
                                ).store@.blocks[i]).hash == hashv;
                            let target = old(self).store@.blocks[i].id;
                            &&& r is Ok
                            &&& final(self).store@.blocks =~= old(self).store@.blocks.filter(
                                |b: BlockRowV| b.id <= target,
                            )
                            &&& final(self).store@.records =~= old(self).store@.records.filter(
                                |m: ModelV| m.block_id <= target,
                            )
                        } else if old(self).store@.blocks.len() > 1 {
                            &&& (r matches Err(ProcessError::RollbackTargetNotFound))
                            &&& final(self).store@ == old(self).store@
                        } else {
                            &&& r is Ok
                            &&& final(self).store@ == old(self).store@
                        }
                    })
                },
            },
    {
        match event {
            CardanoEventType::Block {
                cbor_hex,
                epoch,
                epoch_slot,
                block_number,
                block_hash,
                block_slot,
            } => {
                let boundary = match (self.last_epoch, epoch) {
                    (Some(l), Some(e)) => e > l,
                    _ => false,
                };
                if boundary {
                    let ed = instant_elapsed(&self.epoch_start);
                    let epoch_nanos = duration_nanos(&ed);
                    let task_nanos = self.task_perf.get_total();
                    perf_aggregator.set_overhead(epoch_nanos, task_nanos);
                    match self.last_epoch {
                        Some(l) => {
                            self.last_summary = Some(
                                EpochSummary { epoch: l, epoch_nanos, task_nanos },
                            );
                        },
                        None => {},
                    }
                    self.epoch_start = instant_now();
                    perf_aggregator.reset();
                    let n = self.exec_plan.nodes.len();
                    self.task_perf = TaskPerfAggregator::new(n);
                }
                match (self.last_epoch, epoch) {
                    (None, Some(e)) => {
                        self.last_epoch = Some(e);
                    },
                    (Some(l), Some(e)) => {
                        if e > l {
                            self.last_epoch = Some(e);
                        }
                    },
                    _ => {},
                }
                self.insert_block(
                    &cbor_hex,
                    epoch,
                    epoch_slot,
                    block_number,
                    &block_hash,
                    block_slot,
                    perf_aggregator,
                )
            },
            CardanoEventType::RollBack { block_slot, block_hash } => {
                let _ = block_slot;
                let rollback_start = instant_now();
                let hash = match decode_hex(block_hash.as_str()) {
                    Ok(h) => h,
                    Err(_) => {
                        return Err(ProcessError::InvalidHex);
                    },
                };
                let r = match self.store.find_block_by_hash(&hash) {
                    Some(i) => {
                        let target = self.store.block_at(i).id;
                        proof {
                            let j = choose|j: int|
                                0 <= j < self.store@.blocks.len() && (
                                #[trigger] self.store@.blocks[j]).hash == spec_hex_bytes(
                                    block_hash@,
                                );
                            if j != i as int {
                                assert(self.store@.blocks[j].hash
                                    == self.store@.blocks[i as int].hash);
                            }
                        }
                        self.store.delete_blocks_after(target);
                        Ok(())
                    },
                    None => {
                        if self.store.count_blocks() > 1 {
                            Err(ProcessError::RollbackTargetNotFound)
                        } else {
                            Ok(())
                        }
                    },
                };
                let d = instant_elapsed(&rollback_start);
                perf_aggregator.record(Stage::Rollback, duration_nanos(&d));
                r
            },
        }
    }
}

} // verus!
