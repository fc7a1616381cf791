use vstd::prelude::*;

verus! {

/// `a + b`, capped at the largest representable value. Accumulated
/// durations saturate instead of wrapping.
pub open spec fn spec_sat_add(a: u64, b: u64) -> u64 {
    if a + b > u64::MAX {
        u64::MAX
    } else {
        (a + b) as u64
    }
}

/// `a + b`, capped at the largest representable value.
pub fn sat_add(a: u64, b: u64) -> (r: u64)
    ensures
        r == spec_sat_add(a, b),
{
    if a > u64::MAX - b {
        u64::MAX
    } else {
        a + b
    }
}

/// `a - b`, floored at zero.
pub open spec fn spec_sat_sub(a: u64, b: u64) -> u64 {
    if a >= b {
        (a - b) as u64
    } else {
        0
    }
}

/// `a - b`, floored at zero.
pub fn sat_sub(a: u64, b: u64) -> (r: u64)
    ensures
        r == spec_sat_sub(a, b),
{
    if a >= b {
        a - b
    } else {
        0
    }
}

/// A stage of block processing whose duration the controller accumulates
/// across one epoch.
#[derive(Clone, Copy, Debug, PartialEq, Eq, Structural)]
pub enum Stage {
    BlockFetch,
    BlockParse,
    Rollback,
}

/// Accumulated nanoseconds per processing stage across one epoch, plus the
/// overhead not attributed to any stage. Reset exactly once per epoch
/// transition.
#[derive(Clone, Copy, Debug, PartialEq, Eq, Structural)]
pub struct PerfAggregator {
    pub block_fetch: u64,
    pub block_parse: u64,
    pub rollback: u64,
    pub overhead: u64,
}

impl PerfAggregator {
    /// An aggregator with every accumulator at zero.
    pub fn new() -> (r: PerfAggregator)
        ensures
            r == (PerfAggregator { block_fetch: 0, block_parse: 0, rollback: 0, overhead: 0 }),
    {
        PerfAggregator { block_fetch: 0, block_parse: 0, rollback: 0, overhead: 0 }
    }

    /// The accumulated duration of `stage`.
    pub open spec fn spec_get(self, stage: Stage) -> u64 {
        match stage {
            Stage::BlockFetch => self.block_fetch,
            Stage::BlockParse => self.block_parse,
            Stage::Rollback => self.rollback,
        }
    }

    /// The aggregator after adding `nanos` to `stage`.
    pub open spec fn spec_record(self, stage: Stage, nanos: u64) -> PerfAggregator {
        match stage {
            Stage::BlockFetch => PerfAggregator {
                block_fetch: spec_sat_add(self.block_fetch, nanos),
                ..self
            },
            Stage::BlockParse => PerfAggregator {
                block_parse: spec_sat_add(self.block_parse, nanos),
                ..self
            },
            Stage::Rollback => PerfAggregator { rollback: spec_sat_add(self.rollback, nanos), ..self },
        }
    }

    /// Adds `nanos` to the accumulator of `stage`, leaving every other
    /// accumulator as it was.
    pub fn record(&mut self, stage: Stage, nanos: u64)
        ensures
            *final(self) == old(self).spec_record(stage, nanos),
    {
        match stage {
            Stage::BlockFetch => {
                self.block_fetch = sat_add(self.block_fetch, nanos);
            },
            Stage::BlockParse => {
                self.block_parse = sat_add(self.block_parse, nanos);
            },
            Stage::Rollback => {
                self.rollback = sat_add(self.rollback, nanos);
            },
        }
    }

    /// The total accumulated across the stages, without the overhead.
    pub open spec fn spec_stage_total(self) -> u64 {
        spec_sat_add(spec_sat_add(self.block_fetch, self.block_parse), self.rollback)
    }

    /// The total accumulated across the stages, without the overhead.
    pub fn stage_total(&self) -> (r: u64)
        ensures
            r == self.spec_stage_total(),
    {
        sat_add(sat_add(self.block_fetch, self.block_parse), self.rollback)
    }

    /// Sets the overhead to the part of `epoch_nanos` that neither the
    /// stages nor the tasks (whose total is `task_nanos`) account for.
    pub fn set_overhead(&mut self, epoch_nanos: u64, task_nanos: u64)
        ensures
            *final(self) == (PerfAggregator {
                overhead: spec_sat_sub(
                    epoch_nanos,
                    spec_sat_add(old(self).spec_stage_total(), task_nanos),
                ),
                ..*old(self)
            }),
    {
        let accounted = sat_add(self.stage_total(), task_nanos);
        self.overhead = sat_sub(epoch_nanos, accounted);
    }

    /// Returns every accumulator to zero. Called exactly once per epoch
    /// transition, after the prior epoch's totals are read off.
    pub fn reset(&mut self)
        ensures
            *final(self) == (PerfAggregator { block_fetch: 0, block_parse: 0, rollback: 0, overhead: 0 }),
    {
        self.block_fetch = 0;
        self.block_parse = 0;
        self.rollback = 0;
        self.overhead = 0;
    }
}

/// The sum of a sequence of durations, saturating at the largest
/// representable value.
pub open spec fn spec_sat_sum(s: Seq<u64>) -> u64
    decreases s.len(),
{
    if s.len() == 0 {
        0
    } else {
        spec_sat_add(spec_sat_sum(s.drop_last()), s.last())
    }
}

/// Accumulated nanoseconds per task of the execution plan, indexed like
/// the plan's nodes. Replaced by a fresh instance at each epoch
/// transition.
pub struct TaskPerfAggregator {
    pub task_nanos: Vec<u64>,
}

impl TaskPerfAggregator {
    /// An aggregator for `n` tasks, every accumulator at zero.
    pub fn new(n: usize) -> (r: TaskPerfAggregator)
        ensures
            r.task_nanos@.len() == n,
            forall|i: int| 0 <= i < n ==> r.task_nanos@[i] == 0,
    {
        let mut v: Vec<u64> = Vec::new();
        let mut i: usize = 0;
        while i < n
            invariant
                i <= n,
                v@.len() == i,
                forall|j: int| 0 <= j < i ==> v@[j] == 0,
            decreases n - i,
        {
            v.push(0);
            i = i + 1;
        }
        TaskPerfAggregator { task_nanos: v }
    }

    /// Adds `nanos` to the accumulator of the task at `i`.
    pub fn record(&mut self, i: usize, nanos: u64)
        requires
            i < old(self).task_nanos@.len(),
        ensures
            final(self).task_nanos@ == old(self).task_nanos@.update(
                i as int,
                spec_sat_add(old(self).task_nanos@[i as int], nanos),
            ),
    {
        let v = sat_add(self.task_nanos[i], nanos);
        self.task_nanos.set(i, v);
    }

    /// The total accumulated across all tasks.
    pub fn get_total(&self) -> (r: u64)
        ensures
            r == spec_sat_sum(self.task_nanos@),
    {
        let mut acc: u64 = 0;
        let mut i: usize = 0;
        while i < self.task_nanos.len()
            invariant
                i <= self.task_nanos@.len(),
                acc == spec_sat_sum(self.task_nanos@.subrange(0, i as int)),
            decreases self.task_nanos@.len() - i,
        {
            proof {
                assert(self.task_nanos@.subrange(0, i + 1 as int).drop_last() =~= self.task_nanos@.subrange(
                    0,
                    i as int,
                ));
            }
            acc = sat_add(acc, self.task_nanos[i]);
            i = i + 1;
        }
        proof {
            assert(self.task_nanos@.subrange(0, self.task_nanos@.len() as int) =~= self.task_nanos@);
        }
        acc
    }
}

} // verus!
