use vstd::prelude::*;
use vstd::seq_lib::*;
use crate::block::{BlockGlobalInfo, DecodedBlock, DecodedBlockV};
use crate::era::EraValue;
use crate::perf::TaskPerfAggregator;
use crate::plan::{
    PlanError, TaskMeta, TaskMetaV, spec_applicable, spec_has_duplicate_write,
    spec_has_missing_read, spec_order_wf, spec_slot_written, validate_plan,
};
use crate::store::{BlockRow, BlockRowV, ChainStore, ChainStoreV};
use crate::task::{ChainTask, SlotValue, SlotValueV, TaskFailure, TaskConfig, slot_views};
use crate::trusted::{duration_nanos, instant_elapsed, instant_now};

verus! {

/// One node of the execution plan: a task and its registration.
pub struct PlanNode<T> {
    pub meta: TaskMeta,
    pub task: T,
}

/// The registrations of a node sequence.
pub open spec fn spec_metas<T>(nodes: Seq<PlanNode<T>>) -> Seq<TaskMetaV> {
    nodes.map_values(|n: PlanNode<T>| n.meta@)
}

/// An immutable, validated task graph: nodes in registration order, plus
/// the topological execution order computed at construction and its
/// inverse.
pub struct ExecutionPlan<T> {
    pub nodes: Vec<PlanNode<T>>,
    pub order: Vec<usize>,
    pub pos: Vec<usize>,
}

impl<T: ChainTask> ExecutionPlan<T> {
    /// The plan's validity: the stored order is a topological order of
    /// the registered dependency relation, every write slot has one
    /// writer, and every read slot has a writer.
    pub open spec fn wf(self) -> bool {
        &&& spec_order_wf(spec_metas(self.nodes@), self.order@, self.pos@)
        &&& !spec_has_duplicate_write(spec_metas(self.nodes@))
        &&& !spec_has_missing_read(spec_metas(self.nodes@))
    }

    /// Validates the registered nodes into an immutable plan; see
    /// `validate_plan` for what each error means.
    pub fn build(nodes: Vec<PlanNode<T>>) -> (r: Result<ExecutionPlan<T>, PlanError>)
        ensures
            r is Ok ==> r->Ok_0.wf() && r->Ok_0.nodes@ == nodes@,
            r is Err ==> spec_has_duplicate_write(spec_metas(nodes@)) || spec_has_missing_read(
                spec_metas(nodes@),
            ) || !crate::plan::spec_acyclic(spec_metas(nodes@)),
    {
        let mut metas: Vec<TaskMeta> = Vec::new();
        let mut i: usize = 0;
        while i < nodes.len()
            invariant
                i <= nodes.len(),
                metas@.map_values(|m: TaskMeta| m@) =~= spec_metas(nodes@).subrange(0, i as int),
            decreases nodes.len() - i,
        {
            proof {
                assert(spec_metas(nodes@).subrange(0, i + 1 as int) =~= spec_metas(
                    nodes@,
                ).subrange(0, i as int).push(spec_metas(nodes@)[i as int]));
            }
            metas.push(nodes[i].meta.duplicate());
            i = i + 1;
        }
        proof {
            assert(spec_metas(nodes@).subrange(0, spec_metas(nodes@).len() as int) =~= spec_metas(
                nodes@,
            ));
            assert(metas@.map_values(|m: TaskMeta| m@) =~= spec_metas(nodes@));
        }
        match validate_plan(&metas) {
            Ok((order, pos)) => Ok(ExecutionPlan { nodes, order, pos }),
            Err(e) => Err(e),
        }
    }
}

/// Whether the node at `k` is selected for this block: its era filter
/// admits the block's era and its predicate says it has work.
pub open spec fn spec_selected<T: ChainTask>(
    nodes: Seq<PlanNode<T>>,
    block: DecodedBlockV,
    cfg: TaskConfig,
    k: int,
) -> bool {
    spec_applicable(nodes[k].meta@, block.era) && nodes[k].task.spec_should_run(block, cfg)
}

/// The selection predicate as a function value, shared by the schedule
/// definition and its lemmas.
pub open spec fn spec_sel_pred<T: ChainTask>(
    nodes: Seq<PlanNode<T>>,
    block: DecodedBlockV,
    cfg: TaskConfig,
) -> spec_fn(usize) -> bool {
    |k: usize| spec_selected(nodes, block, cfg, k as int)
}

/// The runtime schedule for a block: the topological order restricted to
/// the selected nodes, which keeps its relative order — the execution
/// order is a function of the plan and the block alone.
pub open spec fn spec_sched<T: ChainTask>(
    nodes: Seq<PlanNode<T>>,
    order: Seq<usize>,
    block: DecodedBlockV,
    cfg: TaskConfig,
) -> Seq<usize> {
    order.filter(spec_sel_pred(nodes, block, cfg))
}

/// The index of the task writing `slot`; meaningful when exactly one
/// does.
pub open spec fn spec_writer_index(ms: Seq<TaskMetaV>, slot: u64) -> int {
    choose|w: int| 0 <= w < ms.len() && (#[trigger] ms[w]).writes == slot
}

/// The slot values handed to the node at `k`: one per declared read, the
/// writer's current slot value, or `Absent` for a read nobody writes.
pub open spec fn spec_inputs_of<T: ChainTask>(
    nodes: Seq<PlanNode<T>>,
    slots: Seq<SlotValueV>,
    k: int,
) -> Seq<SlotValueV> {
    Seq::new(
        nodes[k].meta@.reads.len(),
        |j: int|
            {
                let slot = nodes[k].meta@.reads[j];
                if spec_slot_written(spec_metas(nodes), slot) {
                    slots[spec_writer_index(spec_metas(nodes), slot)]
                } else {
                    SlotValueV::Absent
                }
            },
    )
}

/// One step of the run: the node at `k` executes over the current slot
/// values; its output lands in its slot, or its failure, tagged with its
/// identity, aborts the run.
pub open spec fn spec_step<T: ChainTask>(
    nodes: Seq<PlanNode<T>>,
    block: DecodedBlockV,
    info: BlockGlobalInfo,
    row: BlockRowV,
    store: ChainStoreV,
    cfg: TaskConfig,
    slots: Seq<SlotValueV>,
    k: int,
) -> Result<Seq<SlotValueV>, TaskFailure> {
    match nodes[k].task.spec_execute(block, info, row, store, cfg, spec_inputs_of(nodes, slots, k)) {
        Ok(v) => Ok(slots.update(k, v)),
        Err(e) => Err(TaskFailure { task: nodes[k].meta@.name, error: e }),
    }
}

/// The slot values after running the scheduled nodes in order over
/// initially absent slots, or the first failure.
pub open spec fn spec_run_sched<T: ChainTask>(
    nodes: Seq<PlanNode<T>>,
    block: DecodedBlockV,
    info: BlockGlobalInfo,
    row: BlockRowV,
    store: ChainStoreV,
    cfg: TaskConfig,
    sched: Seq<usize>,
) -> Result<Seq<SlotValueV>, TaskFailure>
    decreases sched.len(),
{
    if sched.len() == 0 {
        Ok(Seq::new(nodes.len(), |i: int| SlotValueV::Absent))
    } else {
        match spec_run_sched(nodes, block, info, row, store, cfg, sched.drop_last()) {
            Ok(slots) => spec_step(nodes, block, info, row, store, cfg, slots, sched.last() as int),
            Err(e) => Err(e),
        }
    }
}

/// What one run of the executor yields for a block: the slot values of
/// every task the schedule ran, or the first task failure. A function of
/// the plan, the block, the store and the configuration alone.
pub open spec fn spec_execute_plan<T: ChainTask>(
    plan: ExecutionPlan<T>,
    block: DecodedBlockV,
    info: BlockGlobalInfo,
    row: BlockRowV,
    store: ChainStoreV,
    cfg: TaskConfig,
) -> Result<Seq<SlotValueV>, TaskFailure> {
    spec_run_sched(
        plan.nodes@,
        block,
        info,
        row,
        store,
        cfg,
        spec_sched(plan.nodes@, plan.order@, block, cfg),
    )
}

/// The view of an executor result.
pub open spec fn result_slots_view(r: Result<Vec<SlotValue>, TaskFailure>) -> Result<
    Seq<SlotValueV>,
    TaskFailure,
> {
    match r {
        Ok(v) => Ok(slot_views(v@)),
        Err(e) => Err(e),
    }
}

/// Appending one position to the order extends the schedule by that
/// position exactly when it is selected.
proof fn lemma_sched_push<T: ChainTask>(
    nodes: Seq<PlanNode<T>>,
    order: Seq<usize>,
    block: DecodedBlockV,
    cfg: TaskConfig,
    k: usize,
)
    ensures
        spec_sched(nodes, order.push(k), block, cfg) == (if spec_selected(
            nodes,
            block,
            cfg,
            k as int,
        ) {
            spec_sched(nodes, order, block, cfg).push(k)
        } else {
            spec_sched(nodes, order, block, cfg)
        }),
{
    reveal(Seq::filter);
    assert(order.push(k).drop_last() =~= order);
    assert(order.push(k).last() == k);
}

/// The schedule of a prefix of the order is a prefix of the schedule.
proof fn lemma_sched_prefix<T: ChainTask>(
    nodes: Seq<PlanNode<T>>,
    order: Seq<usize>,
    block: DecodedBlockV,
    cfg: TaskConfig,
    t: int,
)
    requires
        0 <= t <= order.len(),
    ensures
        spec_sched(nodes, order, block, cfg).subrange(
            0,
            spec_sched(nodes, order.subrange(0, t), block, cfg).len() as int,
        ) == spec_sched(nodes, order.subrange(0, t), block, cfg),
        spec_sched(nodes, order.subrange(0, t), block, cfg).len() <= spec_sched(
            nodes,
            order,
            block,
            cfg,
        ).len(),
{
    let pred = spec_sel_pred(nodes, block, cfg);
    let prefix = order.subrange(0, t);
    let suffix = order.subrange(t, order.len() as int);
    assert(order =~= prefix + suffix);
    Seq::<usize>::filter_distributes_over_add(prefix, suffix, pred);
    assert(spec_sched(nodes, order, block, cfg) == prefix.filter(pred) + suffix.filter(pred));
    assert((prefix.filter(pred) + suffix.filter(pred)).subrange(
        0,
        prefix.filter(pred).len() as int,
    ) =~= prefix.filter(pred));
}

/// A run that fails on a prefix of the schedule fails the same way on the
/// whole schedule.
proof fn lemma_run_err_extends<T: ChainTask>(
    nodes: Seq<PlanNode<T>>,
    block: DecodedBlockV,
    info: BlockGlobalInfo,
    row: BlockRowV,
    store: ChainStoreV,
    cfg: TaskConfig,
    s1: Seq<usize>,
    s2: Seq<usize>,
)
    requires
        s1.len() <= s2.len(),
        s2.subrange(0, s1.len() as int) == s1,
        spec_run_sched(nodes, block, info, row, store, cfg, s1) is Err,
    ensures
        spec_run_sched(nodes, block, info, row, store, cfg, s2) == spec_run_sched(
            nodes,
            block,
            info,
            row,
            store,
            cfg,
            s1,
        ),
    decreases s2.len() - s1.len(),
{
    if s2.len() == s1.len() {
        assert(s2 =~= s1);
    } else {
        assert(s2.drop_last().subrange(0, s1.len() as int) =~= s1) by {
            assert forall|i: int| 0 <= i < s1.len() implies s2.drop_last().subrange(
                0,
                s1.len() as int,
            )[i] == s1[i] by {
                assert(s2.subrange(0, s1.len() as int)[i] == s1[i]);
            }
        }
        lemma_run_err_extends(nodes, block, info, row, store, cfg, s1, s2.drop_last());
    }
}

/// Whether the era filter of `meta` admits `era`.
pub fn era_applicable(meta: &TaskMeta, era: EraValue) -> (r: bool)
    ensures
        r == spec_applicable(meta@, era),
{
    if meta.eras.len() == 0 {
        return true;
    }
    let mut i: usize = 0;
    while i < meta.eras.len()
        invariant
            i <= meta.eras.len(),
            forall|j: int| 0 <= j < i ==> meta.eras@[j] != era,
        decreases meta.eras.len() - i,
    {
        if meta.eras[i] == era {
            return true;
        }
        i = i + 1;
    }
    proof {
        assert(!meta@.eras.contains(era));
    }
    false
}

/// Finds the writer of `slot` among the plan's nodes.
pub fn find_writer_node<T: ChainTask>(nodes: &Vec<PlanNode<T>>, slot: u64) -> (r: Option<usize>)
    ensures
        r is Some <==> spec_slot_written(spec_metas(nodes@), slot),
        r is Some ==> {
            let w = r->Some_0;
            &&& w < nodes@.len()
            &&& spec_metas(nodes@)[w as int].writes == slot
        },
{
    let ghost ms = spec_metas(nodes@);
    let mut w: usize = 0;
    while w < nodes.len()
        invariant
            w <= nodes@.len(),
            ms == spec_metas(nodes@),
            ms.len() == nodes@.len(),
            forall|j: int| 0 <= j < w ==> (#[trigger] ms[j]).writes != slot,
        decreases nodes@.len() - w,
    {
        if nodes[w].meta.writes == slot {
            proof {
                assert(ms[w as int] == nodes@[w as int].meta@);
                assert(spec_slot_written(ms, slot));
            }
            return Some(w);
        }
        w = w + 1;
    }
    None
}

/// Runs the plan against one decoded block: filters the nodes by era and
/// predicate, executes them in the plan's topological order, threads each
/// task's declared reads from its upstream writers' slots, stops at the
/// first failure, and records each task's wall-clock duration. The
/// returned slot values equal `spec_execute_plan` of the arguments: for a
/// fixed plan, block and store, two runs execute the tasks in the same
/// order and yield the same outputs.
pub fn execute_plan<T: ChainTask>(
    plan: &ExecutionPlan<T>,
    block: &DecodedBlock,
    info: &BlockGlobalInfo,
    row: &BlockRow,
    store: &ChainStore,
    cfg: &TaskConfig,
    task_perf: &mut TaskPerfAggregator,
) -> (r: Result<Vec<SlotValue>, TaskFailure>)
    requires
        plan.wf(),
        old(task_perf).task_nanos@.len() == plan.nodes@.len(),
    ensures
        final(task_perf).task_nanos@.len() == plan.nodes@.len(),
        forall|i: int|
            0 <= i < plan.nodes@.len() ==> (#[trigger] final(task_perf).task_nanos@[i]) >= old(
                task_perf,
            ).task_nanos@[i],
        result_slots_view(r) == spec_execute_plan(*plan, block@, *info, row@, store@, *cfg),
        r is Ok ==> r->Ok_0@.len() == plan.nodes@.len(),
{
    let ghost nodesg = plan.nodes@;
    let ghost schedg = spec_sched(nodesg, plan.order@, block@, *cfg);
    let n = plan.nodes.len();
    let mut slots: Vec<SlotValue> = Vec::new();
    let mut f: usize = 0;
    while f < n
        invariant
            f <= n,
            slots@.len() == f,
            forall|i: int| 0 <= i < f ==> slots@[i] is Absent,
        decreases n - f,
    {
        slots.push(SlotValue::Absent);
        f = f + 1;
    }
    let ghost mut done: Seq<usize> = Seq::<usize>::empty();
    proof {
        assert(plan.order@.subrange(0, 0) =~= Seq::<usize>::empty());
        assert(Seq::<usize>::empty().filter(spec_sel_pred(nodesg, block@, *cfg))
            =~= Seq::<usize>::empty()) by {
            reveal(Seq::filter);
        }
        assert(slot_views(slots@) =~= Seq::new(nodesg.len(), |i: int| SlotValueV::Absent));
    }
    let mut t: usize = 0;
    while t < plan.order.len()
        invariant
            plan.wf(),
            nodesg == plan.nodes@,
            schedg == spec_sched(nodesg, plan.order@, block@, *cfg),
            n == nodesg.len(),
            n == plan.nodes@.len(),
            t <= plan.order@.len(),
            slots@.len() == n,
            task_perf.task_nanos@.len() == n,
            forall|i: int|
                0 <= i < n ==> (#[trigger] task_perf.task_nanos@[i]) >= old(
                    task_perf,
                ).task_nanos@[i],
            done == spec_sched(nodesg, plan.order@.subrange(0, t as int), block@, *cfg),
            Ok::<Seq<SlotValueV>, TaskFailure>(slot_views(slots@)) == spec_run_sched(
                nodesg,
                block@,
                *info,
                row@,
                store@,
                *cfg,
                done,
            ),
        decreases plan.order@.len() - t,
    {
        let k = plan.order[t];
        proof {
            assert(plan.order@.subrange(0, t + 1 as int) =~= plan.order@.subrange(0, t as int).push(
                k,
            ));
            lemma_sched_push(nodesg, plan.order@.subrange(0, t as int), block@, *cfg, k);
        }
        assert(k < n);
        let sel = era_applicable(&plan.nodes[k].meta, block.era) && plan.nodes[k].task.should_run(
            block,
            cfg,
        );
        proof {
            assert(nodesg[k as int].meta@ == plan.nodes@[k as int].meta@);
            assert(sel == spec_selected(nodesg, block@, *cfg, k as int));
        }
        if sel {
            let ghost slots_pre = slot_views(slots@);
            let reads_len = plan.nodes[k].meta.reads.len();
            let mut inputs: Vec<SlotValue> = Vec::new();
            let mut j: usize = 0;
            while j < reads_len
                invariant
                    plan.wf(),
                    nodesg == plan.nodes@,
                    n == nodesg.len(),
                    k < n,
                    slots@.len() == n,
                    slots_pre == slot_views(slots@),
                    reads_len == nodesg[k as int].meta@.reads.len(),
                    j <= reads_len,
                    inputs@.len() == j,
                    forall|jj: int|
                        0 <= jj < j ==> (#[trigger] inputs@[jj])@ == spec_inputs_of(
                            nodesg,
                            slots_pre,
                            k as int,
                        )[jj],
                decreases reads_len - j,
            {
                let slot_name = plan.nodes[k].meta.reads[j];
                proof {
                    assert(slot_name == nodesg[k as int].meta@.reads[j as int]);
                }
                match find_writer_node(&plan.nodes, slot_name) {
                    Some(w) => {
                        proof {
                            let ms = spec_metas(nodesg);
                            let wi = spec_writer_index(ms, slot_name);
                            assert(0 <= wi < ms.len() && ms[wi].writes == slot_name);
                            assert(wi == w as int) by {
                                if wi != w as int {
                                    assert(ms[wi].writes == ms[w as int].writes);
                                }
                            }
                        }
                        inputs.push(slots[w].duplicate());
                    },
                    None => {
                        inputs.push(SlotValue::Absent);
                    },
                }
                j = j + 1;
            }
            proof {
                assert(slot_views(inputs@) =~= spec_inputs_of(nodesg, slots_pre, k as int));
            }
            let t0 = instant_now();
            let res = plan.nodes[k].task.execute(block, info, row, store, cfg, &inputs);
            let d = instant_elapsed(&t0);
            let nanos = duration_nanos(&d);
            task_perf.record(k, nanos);
            match res {
                Ok(v) => {
                    let ghost vv = v@;
                    slots.set(k, v);
                    proof {
                        assert(slot_views(slots@) =~= slots_pre.update(k as int, vv));
                        done = done.push(k);
                        assert(done.drop_last() =~= spec_sched(
                            nodesg,
                            plan.order@.subrange(0, t as int),
                            block@,
                            *cfg,
                        ));
                        assert(spec_run_sched(nodesg, block@, *info, row@, store@, *cfg, done)
                            == spec_step(
                            nodesg,
                            block@,
                            *info,
                            row@,
                            store@,
                            *cfg,
                            slots_pre,
                            k as int,
                        ));
                    }
                },
                Err(e) => {
                    proof {
                        let failed = done.push(k);
                        assert(failed.drop_last() =~= done);
                        assert(spec_run_sched(nodesg, block@, *info, row@, store@, *cfg, failed)
                            == Err::<Seq<SlotValueV>, TaskFailure>(
                            TaskFailure { task: nodesg[k as int].meta@.name, error: e },
                        ));
                        assert(failed == spec_sched(
                            nodesg,
                            plan.order@.subrange(0, t + 1 as int),
                            block@,
                            *cfg,
                        ));
                        lemma_sched_prefix(nodesg, plan.order@, block@, *cfg, t + 1 as int);
                        lemma_run_err_extends(
                            nodesg,
                            block@,
                            *info,
                            row@,
                            store@,
                            *cfg,
                            failed,
                            schedg,
                        );
                    }
                    return Err(TaskFailure { task: plan.nodes[k].meta.name, error: e });
                },
            }
        }
        t = t + 1;
    }
    proof {
        assert(plan.order@.subrange(0, plan.order@.len() as int) =~= plan.order@);
        assert(done == schedg);
    }
    Ok(slots)
}

/// An element of a filtered sequence is an element of the original.
proof fn lemma_filter_members<A>(s: Seq<A>, pred: spec_fn(A) -> bool, i: int)
    requires
        0 <= i < s.filter(pred).len(),
    ensures
        s.contains(s.filter(pred)[i]),
    decreases s.len(),
{
    reveal(Seq::filter);
    if s.len() > 0 {
        if pred(s.last()) && i == s.filter(pred).len() - 1 {
            assert(s[s.len() - 1] == s.filter(pred)[i]);
        } else {
            lemma_filter_members(s.drop_last(), pred, i);
            let j = choose|j: int|
                0 <= j < s.drop_last().len() && s.drop_last()[j] == s.drop_last().filter(pred)[i];
            assert(s[j] == s.filter(pred)[i]);
        }
    }
}

/// Every position of the runtime schedule is a node index.
pub proof fn lemma_sched_bounded<T: ChainTask>(
    nodes: Seq<PlanNode<T>>,
    order: Seq<usize>,
    block: DecodedBlockV,
    cfg: TaskConfig,
)
    requires
        forall|k: int| 0 <= k < order.len() ==> (#[trigger] order[k]) < nodes.len(),
    ensures
        forall|u: int|
            0 <= u < spec_sched(nodes, order, block, cfg).len() ==> (#[trigger] spec_sched(
                nodes,
                order,
                block,
                cfg,
            )[u]) < nodes.len(),
{
    let sched = spec_sched(nodes, order, block, cfg);
    assert forall|u: int| 0 <= u < sched.len() implies (#[trigger] sched[u]) < nodes.len() by {
        lemma_filter_members(order, spec_sel_pred(nodes, block, cfg), u);
        let j = choose|j: int| 0 <= j < order.len() && order[j] == sched[u];
        assert(order[j] < nodes.len());
    }
}

/// The runtime schedule never places a task before one it depends on: no
/// scheduled task reads the write slot of a task scheduled after it.
proof fn lemma_sched_no_forward_reads<T: ChainTask>(
    nodes: Seq<PlanNode<T>>,
    order: Seq<usize>,
    block: DecodedBlockV,
    cfg: TaskConfig,
)
    requires
        forall|i: int, j: int|
            0 <= i < j < order.len() ==> !crate::plan::spec_depends(
                spec_metas(nodes),
                (#[trigger] order[i]) as int,
                (#[trigger] order[j]) as int,
            ),
    ensures
        forall|a: int, b: int|
            0 <= a < b < spec_sched(nodes, order, block, cfg).len()
                ==> !crate::plan::spec_depends(
                spec_metas(nodes),
                (#[trigger] spec_sched(nodes, order, block, cfg)[a]) as int,
                (#[trigger] spec_sched(nodes, order, block, cfg)[b]) as int,
            ),
    decreases order.len(),
{
    reveal(Seq::filter);
    let pred = spec_sel_pred(nodes, block, cfg);
    let sched = spec_sched(nodes, order, block, cfg);
    if order.len() > 0 {
        let rest = order.drop_last();
        assert forall|i: int, j: int|
            0 <= i < j < rest.len() implies !crate::plan::spec_depends(
            spec_metas(nodes),
            (#[trigger] rest[i]) as int,
            (#[trigger] rest[j]) as int,
        ) by {
            assert(rest[i] == order[i] && rest[j] == order[j]);
        }
        lemma_sched_no_forward_reads(nodes, rest, block, cfg);
        let sched_rest = spec_sched(nodes, rest, block, cfg);
        assert forall|a: int, b: int|
            0 <= a < b < sched.len() implies !crate::plan::spec_depends(
            spec_metas(nodes),
            (#[trigger] sched[a]) as int,
            (#[trigger] sched[b]) as int,
        ) by {
            if pred(order.last()) && b == sched.len() - 1 {
                assert(sched[b] == order.last());
                assert(sched[a] == sched_rest[a]);
                lemma_filter_members(rest, pred, a);
                let i = choose|i: int| 0 <= i < rest.len() && rest[i] == sched_rest[a];
                assert(order[i] == sched[a]);
                assert(!crate::plan::spec_depends(
                    spec_metas(nodes),
                    order[i] as int,
                    order[order.len() - 1] as int,
                ));
            } else {
                assert(sched[a] == sched_rest[a] && sched[b] == sched_rest[b]);
            }
        }
    }
}

/// A task declaring a read on a slot never executes before the task
/// declaring the write of that slot: whenever the schedule holds a
/// position `a` whose task reads what the task at position `b` writes,
/// `b` comes strictly first.
pub proof fn lemma_reads_after_writes<T: ChainTask>(
    plan: ExecutionPlan<T>,
    block: DecodedBlockV,
    cfg: TaskConfig,
    a: int,
    b: int,
)
    requires
        plan.wf(),
        0 <= a < spec_sched(plan.nodes@, plan.order@, block, cfg).len(),
        0 <= b < spec_sched(plan.nodes@, plan.order@, block, cfg).len(),
        crate::plan::spec_depends(
            spec_metas(plan.nodes@),
            spec_sched(plan.nodes@, plan.order@, block, cfg)[a] as int,
            spec_sched(plan.nodes@, plan.order@, block, cfg)[b] as int,
        ),
    ensures
        b < a,
{
    let sched = spec_sched(plan.nodes@, plan.order@, block, cfg);
    lemma_sched_no_forward_reads(plan.nodes@, plan.order@, block, cfg);
    lemma_sched_bounded(plan.nodes@, plan.order@, block, cfg);
    if a == b {
        assert(!crate::plan::spec_depends(
            spec_metas(plan.nodes@),
            sched[a] as int,
            sched[a] as int,
        ));
    }
    if a < b {
        assert(!crate::plan::spec_depends(
            spec_metas(plan.nodes@),
            sched[a] as int,
            sched[b] as int,
        ));
    }
}

/// Re-running the executor over an identical plan, block, row, store and
/// configuration yields identical task outputs in identical order: the
/// run is a function of those values, as reprocessing during rollback
/// recovery requires.
pub proof fn lemma_executor_deterministic<T: ChainTask>(
    plan: ExecutionPlan<T>,
    block: DecodedBlockV,
    info: BlockGlobalInfo,
    row: BlockRowV,
    store: ChainStoreV,
    cfg: TaskConfig,
    r1: Result<Seq<SlotValueV>, TaskFailure>,
    r2: Result<Seq<SlotValueV>, TaskFailure>,
)
    requires
        r1 == spec_execute_plan(plan, block, info, row, store, cfg),
        r2 == spec_execute_plan(plan, block, info, row, store, cfg),
    ensures
        r1 == r2,
{
}

} // verus!
