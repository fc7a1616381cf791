use vstd::prelude::*;
use crate::era::EraValue;

verus! {

/// The output slot written by the block-row task and read by transaction
/// extraction tasks.
pub const SLOT_BLOCK: u64 = 1;

/// The output slot written by the Catalyst transaction task.
pub const SLOT_CATALYST: u64 = 2;

/// What one task registers with the plan builder: its identity, the eras
/// it applies to (empty means all), the output slots it reads, and the one
/// output slot it writes.
pub struct TaskMeta {
    pub name: u64,
    pub eras: Vec<EraValue>,
    pub reads: Vec<u64>,
    pub writes: u64,
}

/// Specification-level value of a task's registration.
pub struct TaskMetaV {
    pub name: u64,
    pub eras: Seq<EraValue>,
    pub reads: Seq<u64>,
    pub writes: u64,
}

impl View for TaskMeta {
    type V = TaskMetaV;

    open spec fn view(&self) -> TaskMetaV {
        TaskMetaV { name: self.name, eras: self.eras@, reads: self.reads@, writes: self.writes }
    }
}

impl TaskMeta {
    /// An exact copy of the registration.
    pub fn duplicate(&self) -> (r: TaskMeta)
        ensures
            r@ == self@,
    {
        let mut eras: Vec<EraValue> = Vec::new();
        let mut i: usize = 0;
        while i < self.eras.len()
            invariant
                i <= self.eras.len(),
                eras@ =~= self.eras@.subrange(0, i as int),
            decreases self.eras.len() - i,
        {
            eras.push(self.eras[i]);
            i = i + 1;
        }
        let mut reads: Vec<u64> = Vec::new();
        let mut j: usize = 0;
        while j < self.reads.len()
            invariant
                j <= self.reads.len(),
                reads@ =~= self.reads@.subrange(0, j as int),
            decreases self.reads.len() - j,
        {
            reads.push(self.reads[j]);
            j = j + 1;
        }
        proof {
            assert(eras@ =~= self.eras@);
            assert(reads@ =~= self.reads@);
        }
        TaskMeta { name: self.name, eras, reads, writes: self.writes }
    }
}

/// Whether a task registered with `meta` applies to a block of `era`:
/// an empty era list means the task applies to every era.
pub open spec fn spec_applicable(meta: TaskMetaV, era: EraValue) -> bool {
    meta.eras.len() == 0 || meta.eras.contains(era)
}

/// Whether the task registered as `metas[x]` depends on the one registered
/// as `metas[y]`: it reads the slot `metas[y]` writes.
pub open spec fn spec_depends(metas: Seq<TaskMetaV>, x: int, y: int) -> bool {
    metas[x].reads.contains(metas[y].writes)
}

/// Whether the dependency relation over `metas` is acyclic: every
/// nonempty set of tasks holds one that depends on none in the set. The
/// validated plan's topological order exists exactly when this holds
/// (given that every read has a writer).
pub open spec fn spec_acyclic(metas: Seq<TaskMetaV>) -> bool {
    forall|s: Set<int>|
        #![trigger s.len()]
        (s.finite() && s.len() > 0 && (forall|x: int| s.contains(x) ==> 0 <= x < metas.len()))
            ==> exists|x: int|
            s.contains(x) && (forall|y: int| s.contains(y) ==> !spec_depends(metas, x, y))
}

/// Whether two registered tasks write the same slot.
pub open spec fn spec_has_duplicate_write(metas: Seq<TaskMetaV>) -> bool {
    exists|i: int, j: int|
        0 <= i < j < metas.len() && (#[trigger] metas[i]).writes == (#[trigger] metas[j]).writes
}

/// Whether some registered task reads a slot that no task writes.
pub open spec fn spec_has_missing_read(metas: Seq<TaskMetaV>) -> bool {
    exists|i: int, j: int|
        0 <= i < metas.len() && 0 <= j < metas[i].reads.len() && !spec_slot_written(
            metas,
            #[trigger] metas[i].reads[j],
        )
}

/// Whether some registered task writes the slot `slot`.
pub open spec fn spec_slot_written(metas: Seq<TaskMetaV>, slot: u64) -> bool {
    exists|w: int| 0 <= w < metas.len() && (#[trigger] metas[w]).writes == slot
}

/// Whether the writer of `slot`, if any, is still unplaced.
pub open spec fn spec_no_placed_writer(metas: Seq<TaskMetaV>, placed: Seq<bool>, slot: u64) -> bool {
    forall|w: int| 0 <= w < metas.len() && (#[trigger] metas[w]).writes == slot ==> !placed[w]
}

/// Whether some placed task writes `slot`.
pub open spec fn spec_placed_writer(metas: Seq<TaskMetaV>, placed: Seq<bool>, slot: u64) -> bool {
    exists|w: int| 0 <= w < metas.len() && (#[trigger] metas[w]).writes == slot && placed[w]
}

/// Whether some task placed strictly before position `t` writes `slot`.
pub open spec fn spec_writer_before(
    metas: Seq<TaskMetaV>,
    placed: Seq<bool>,
    pos: Seq<usize>,
    slot: u64,
    t: int,
) -> bool {
    exists|w: int|
        0 <= w < metas.len() && (#[trigger] metas[w]).writes == slot && placed[w] && pos[w] < t
}

/// Whether the task `u` cannot be placed yet: one of its reads has no
/// placed writer.
pub open spec fn spec_blocked(metas: Seq<TaskMetaV>, placed: Seq<bool>, u: int) -> bool {
    exists|b: int|
        0 <= b < metas[u].reads.len() && spec_no_placed_writer(
            metas,
            placed,
            #[trigger] metas[u].reads[b],
        )
}

/// Raised when a set of task registrations does not form a valid plan.
#[derive(Clone, Copy, Debug, PartialEq, Eq, Structural)]
pub enum PlanError {
    /// Two tasks declare the same write slot.
    DuplicateWrite,
    /// A task reads a slot that no task writes.
    MissingRead,
    /// The write-to-read dependency relation has a cycle.
    CyclicDependency,
}

/// The validated execution order and its inverse, as computed at
/// construction: `order` lists node indices, oldest first; `pos[v]` is the
/// position of node `v` in `order`. The order is topological for the
/// write-to-read dependency relation, with ties broken by registration
/// order.
pub open spec fn spec_order_wf(metas: Seq<TaskMetaV>, order: Seq<usize>, pos: Seq<usize>) -> bool {
    &&& order.len() == metas.len()
    &&& pos.len() == metas.len()
    &&& forall|k: int| 0 <= k < order.len() ==> (#[trigger] order[k]) < metas.len()
    &&& forall|v: int| 0 <= v < pos.len() ==> (#[trigger] pos[v]) < order.len()
    &&& forall|k: int| 0 <= k < order.len() ==> pos[(#[trigger] order[k]) as int] == k
    &&& forall|v: int| 0 <= v < pos.len() ==> order[(#[trigger] pos[v]) as int] == v
    &&& forall|a: int, b: int|
        0 <= a < b < order.len() ==> !spec_depends(
            metas,
            (#[trigger] order[a]) as int,
            (#[trigger] order[b]) as int,
        )
    &&& forall|x: int| 0 <= x < metas.len() ==> !spec_depends(metas, x, x)
}

/// Finds the writer of `slot` among the registered tasks.
pub fn find_writer(metas: &Vec<TaskMeta>, slot: u64) -> (r: Option<usize>)
    ensures
        r is Some <==> spec_slot_written(metas@.map_values(|m: TaskMeta| m@), slot),
        r is Some ==> {
            let w = r->Some_0;
            &&& w < metas@.len()
            &&& metas@.map_values(|m: TaskMeta| m@)[w as int].writes == slot
        },
{
    let ghost ms = metas@.map_values(|m: TaskMeta| m@);
    let mut w: usize = 0;
    while w < metas.len()
        invariant
            w <= metas@.len(),
            ms == metas@.map_values(|m: TaskMeta| m@),
            ms.len() == metas@.len(),
            forall|j: int| 0 <= j < w ==> (#[trigger] ms[j]).writes != slot,
        decreases metas@.len() - w,
    {
        if metas[w].writes == slot {
            proof {
                assert(ms[w as int] == metas@[w as int]@);
                assert(spec_slot_written(ms, slot));
            }
            return Some(w);
        }
        w = w + 1;
    }
    None
}

/// Validates a set of task registrations: checks that no two tasks write
/// the same slot, that every read has a writer, and that the dependency
/// relation is acyclic; on success returns the topological execution
/// order (ties broken by registration order) together with its inverse.
/// Construction is the only place these properties are checked: a plan
/// that builds is valid for good.
pub fn validate_plan(metas: &Vec<TaskMeta>) -> (r: Result<(Vec<usize>, Vec<usize>), PlanError>)
    ensures
        ({
            let ms = metas@.map_values(|m: TaskMeta| m@);
            &&& (r is Ok ==> spec_order_wf(ms, r->Ok_0.0@, r->Ok_0.1@))
            &&& (r is Ok ==> !spec_has_duplicate_write(ms) && !spec_has_missing_read(ms))
            &&& (r == Err::<(Vec<usize>, Vec<usize>), PlanError>(PlanError::DuplicateWrite)
                ==> spec_has_duplicate_write(ms))
            &&& (r == Err::<(Vec<usize>, Vec<usize>), PlanError>(PlanError::MissingRead)
                ==> spec_has_missing_read(ms))
            &&& (r == Err::<(Vec<usize>, Vec<usize>), PlanError>(PlanError::CyclicDependency)
                ==> !spec_acyclic(ms))
            &&& (r is Err ==> spec_has_duplicate_write(ms) || spec_has_missing_read(ms)
                || !spec_acyclic(ms))
        }),
{
    let ghost ms = metas@.map_values(|m: TaskMeta| m@);
    let n = metas.len();

    // No two tasks may write the same slot.
    let mut i: usize = 0;
    while i < n
        invariant
            n == ms.len(),
            ms == metas@.map_values(|m: TaskMeta| m@),
            i <= n,
            forall|a: int, b: int|
                0 <= a < b < ms.len() && a < i ==> (#[trigger] ms[a]).writes != (
                #[trigger] ms[b]).writes,
        decreases n - i,
    {
        let mut j: usize = i + 1;
        while j < n
            invariant
                n == ms.len(),
                ms == metas@.map_values(|m: TaskMeta| m@),
                i < n,
                i + 1 <= j <= n,
                forall|b: int| i < b < j ==> (#[trigger] ms[b]).writes != ms[i as int].writes,
            decreases n - j,
        {
            if metas[j].writes == metas[i].writes {
                proof {
                    assert((#[trigger] ms[i as int]).writes == (#[trigger] ms[j as int]).writes);
                    assert(spec_has_duplicate_write(ms));
                }
                return Err(PlanError::DuplicateWrite);
            }
            j = j + 1;
        }
        i = i + 1;
    }

    // Every read must have a writer.
    let mut i: usize = 0;
    while i < n
        invariant
            n == ms.len(),
            ms == metas@.map_values(|m: TaskMeta| m@),
            i <= n,
            forall|a: int, b: int|
                0 <= a < i && 0 <= b < ms[a].reads.len() ==> spec_slot_written(
                    ms,
                    #[trigger] ms[a].reads[b],
                ),
        decreases n - i,
    {
        let reads_len = metas[i].reads.len();
        let mut j: usize = 0;
        while j < reads_len
            invariant
                n == ms.len(),
                ms == metas@.map_values(|m: TaskMeta| m@),
                i < n,
                reads_len == ms[i as int].reads.len(),
                j <= reads_len,
                forall|b: int|
                    0 <= b < j ==> spec_slot_written(ms, #[trigger] ms[i as int].reads[b]),
            decreases reads_len - j,
        {
            if find_writer(metas, metas[i].reads[j]).is_none() {
                return Err(PlanError::MissingRead);
            }
            j = j + 1;
        }
        i = i + 1;
    }

    // Topologically order the nodes, scanning in registration order so
    // that among the ready nodes the earliest-registered one is placed
    // first.
    let mut order: Vec<usize> = Vec::new();
    let mut pos: Vec<usize> = Vec::new();
    let mut placed: Vec<bool> = Vec::new();
    let mut k: usize = 0;
    while k < n
        invariant
            k <= n,
            pos@.len() == k,
            placed@.len() == k,
            forall|t: int| 0 <= t < k ==> !(#[trigger] placed@[t]),
        decreases n - k,
    {
        pos.push(0);
        placed.push(false);
        k = k + 1;
    }
    let mut count: usize = 0;
    while count < n
        invariant
            n == ms.len(),
            ms == metas@.map_values(|m: TaskMeta| m@),
            forall|a: int, b: int|
                0 <= a < ms.len() && 0 <= b < ms[a].reads.len() ==> spec_slot_written(
                    ms,
                    #[trigger] ms[a].reads[b],
                ),
            forall|x1: int, x2: int|
                0 <= x1 < x2 < ms.len() ==> (#[trigger] ms[x1]).writes != (#[trigger] ms[x2]).writes,
            count <= n,
            order@.len() == count,
            pos@.len() == n,
            placed@.len() == n,
            forall|t: int| 0 <= t < count ==> (#[trigger] order@[t]) < n,
            forall|t: int| 0 <= t < count ==> placed@[(#[trigger] order@[t]) as int],
            forall|v: int| 0 <= v < n && placed@[v] ==> (#[trigger] pos@[v]) < count,
            forall|t: int| 0 <= t < count ==> pos@[(#[trigger] order@[t]) as int] == t,
            forall|v: int| 0 <= v < n && placed@[v] ==> order@[(#[trigger] pos@[v]) as int] == v,
            forall|t: int, b: int|
                0 <= t < count && 0 <= b < ms[(order@[t]) as int].reads.len()
                    ==> spec_writer_before(
                    ms,
                    placed@,
                    pos@,
                    #[trigger] ms[(order@[t]) as int].reads[b],
                    t,
                ),
        decreases n - count,
    {
        let mut found: bool = false;
        let mut v: usize = 0;
        while v < n && !found
            invariant
                n == ms.len(),
                ms == metas@.map_values(|m: TaskMeta| m@),
                placed@.len() == n,
                pos@.len() == n,
                order@.len() == count,
            forall|x1: int, x2: int|
                0 <= x1 < x2 < ms.len() ==> (#[trigger] ms[x1]).writes != (#[trigger] ms[x2]).writes,
                forall|a1: int, b1: int|
                    0 <= a1 < ms.len() && 0 <= b1 < ms[a1].reads.len() ==> spec_slot_written(
                        ms,
                        #[trigger] ms[a1].reads[b1],
                    ),
                v <= n,
                !found ==> forall|u: int|
                    0 <= u < v ==> placed@[u] || spec_blocked(ms, placed@, u),
                found ==> v < n && !placed@[v as int],
                found ==> forall|b: int|
                    0 <= b < ms[v as int].reads.len() ==> spec_placed_writer(
                        ms,
                        placed@,
                        #[trigger] ms[v as int].reads[b],
                    ),
            decreases n - v, (if found { 0int } else { 1int }),
        {
            if !placed[v] {
                let reads_len = metas[v].reads.len();
                let mut ok: bool = true;
                let mut b: usize = 0;
                while b < reads_len && ok
                    invariant
                        n == ms.len(),
                        ms == metas@.map_values(|m: TaskMeta| m@),
                        placed@.len() == n,
            forall|x1: int, x2: int|
                0 <= x1 < x2 < ms.len() ==> (#[trigger] ms[x1]).writes != (#[trigger] ms[x2]).writes,
                forall|a1: int, b1: int|
                    0 <= a1 < ms.len() && 0 <= b1 < ms[a1].reads.len() ==> spec_slot_written(
                        ms,
                        #[trigger] ms[a1].reads[b1],
                    ),
                        v < n,
                        reads_len == ms[v as int].reads.len(),
                        b <= reads_len,
                        ok ==> forall|c: int|
                            0 <= c < b ==> spec_placed_writer(
                                ms,
                                placed@,
                                #[trigger] ms[v as int].reads[c],
                            ),
                        !ok ==> spec_blocked(ms, placed@, v as int),
                    decreases reads_len - b, (if ok { 1int } else { 0int }),
                {
                    match find_writer(metas, metas[v].reads[b]) {
                        Some(w) => {
                            if !placed[w] {
                                proof {
                                    assert forall|w2: int|
                                        0 <= w2 < ms.len() && (#[trigger] ms[w2]).writes
                                            == ms[v as int].reads[b as int] implies !placed@[w2] by {
                                        if w2 != w as int {
                                            assert(ms[w2].writes == ms[w as int].writes);
                                        }
                                    }
                                    assert(spec_no_placed_writer(
                                        ms,
                                        placed@,
                                        ms[v as int].reads[b as int],
                                    ));
                                }
                                ok = false;
                            } else {
                                proof {
                                    assert(spec_placed_writer(
                                        ms,
                                        placed@,
                                        ms[v as int].reads[b as int],
                                    ));
                                }
                            }
                        },
                        None => {
                            proof {
                                assert(spec_slot_written(ms, ms[v as int].reads[b as int]));
                                assert(false);
                            }
                        },
                    }
                    b = b + 1;
                }
                if ok {
                    found = true;
                } else {
                    v = v + 1;
                }
            } else {
                v = v + 1;
            }
        }
        if !found {
            proof {
                if forall|u: int| 0 <= u < n ==> #[trigger] placed@[u] {
                    lemma_all_placed(ms, order@, pos@, placed@, count as int);
                }
                assert(exists|u: int| 0 <= u < n && !(#[trigger] placed@[u]));
                lemma_stall_not_acyclic(ms, placed@);
            }
            return Err(PlanError::CyclicDependency);
        }
        let ghost old_order = order@;
        let ghost old_pos = pos@;
        let ghost old_placed = placed@;
        order.push(v);
        pos.set(v, count);
        placed.set(v, true);
        proof {
            assert forall|t: int, b: int|
                0 <= t < count + 1 && 0 <= b < ms[(order@[t]) as int].reads.len()
                    implies spec_writer_before(
                    ms,
                    placed@,
                    pos@,
                    #[trigger] ms[(order@[t]) as int].reads[b],
                    t,
                ) by {
                if t < count {
                    assert(order@[t] == old_order[t]);
                    assert(spec_writer_before(
                        ms,
                        old_placed,
                        old_pos,
                        ms[(old_order[t]) as int].reads[b],
                        t,
                    ));
                    let w = choose|w: int|
                        0 <= w < ms.len() && (#[trigger] ms[w]).writes
                            == ms[(old_order[t]) as int].reads[b] && old_placed[w] && old_pos[w]
                            < t;
                    assert(w != v as int);
                    assert(placed@[w] && pos@[w] == old_pos[w]);
                } else {
                    assert(order@[t] == v as int);
                    assert(spec_placed_writer(ms, old_placed, ms[v as int].reads[b]));
                    let w = choose|w: int|
                        0 <= w < ms.len() && (#[trigger] ms[w]).writes == ms[v as int].reads[b]
                            && old_placed[w];
                    assert(w != v as int);
                    assert(old_pos[w] < count);
                    assert(placed@[w] && pos@[w] == old_pos[w]);
                }
            }
        }
        count = count + 1;
    }
    proof {
        lemma_order_covers(n as int, order@, pos@);
        assert forall|v: int| 0 <= v < n implies #[trigger] placed@[v] by {
            assert(pos@[v] < n && order@[pos@[v] as int] == v);
            assert(placed@[(order@[(pos@[v]) as int]) as int]);
        }
        assert forall|a: int, b: int| 0 <= a < b < order@.len() implies !spec_depends(
            ms,
            (#[trigger] order@[a]) as int,
            (#[trigger] order@[b]) as int,
        ) by {
            if spec_depends(ms, order@[a] as int, order@[b] as int) {
                let slot = ms[order@[b] as int].writes;
                let rd = choose|rd: int|
                    0 <= rd < ms[order@[a] as int].reads.len() && ms[order@[a] as int].reads[rd]
                        == slot;
                assert(spec_writer_before(ms, placed@, pos@, ms[(order@[a]) as int].reads[rd], a));
                let w = choose|w: int|
                    0 <= w < ms.len() && (#[trigger] ms[w]).writes
                        == ms[(order@[a]) as int].reads[rd] && placed@[w] && pos@[w] < a;
                assert(w == order@[b] as int) by {
                    if w != order@[b] as int {
                        assert(pos@[w] < order@.len());
                        assert(order@[pos@[w] as int] == w);
                        assert(ms[w].writes == ms[order@[b] as int].writes);
                    }
                }
                assert(pos@[order@[b] as int] == b);
            }
        }
        assert forall|x: int| 0 <= x < ms.len() implies !spec_depends(ms, x, x) by {
            if spec_depends(ms, x, x) {
                let t = pos@[x] as int;
                assert(order@[t] == x);
                let rd = choose|rd: int|
                    0 <= rd < ms[x].reads.len() && ms[x].reads[rd] == ms[x].writes;
                assert(spec_writer_before(ms, placed@, pos@, ms[(order@[t]) as int].reads[rd], t));
                let w = choose|w: int|
                    0 <= w < ms.len() && (#[trigger] ms[w]).writes
                        == ms[(order@[t]) as int].reads[rd] && placed@[w] && pos@[w] < t;
                assert(w == x) by {
                    if w != x {
                        assert(ms[w].writes == ms[x].writes);
                        assert(pos@[w] < order@.len());
                        assert(order@[pos@[w] as int] == w);
                    }
                }
            }
        }
    }
    Ok((order, pos))
}

/// An order of `n` distinct positions over `[0, n)` with a left inverse
/// reaches every node.
proof fn lemma_order_covers(n: int, order: Seq<usize>, pos: Seq<usize>)
    requires
        n >= 0,
        order.len() == n,
        pos.len() == n,
        forall|t: int| 0 <= t < n ==> (#[trigger] order[t]) < n,
        forall|t: int| 0 <= t < n ==> pos[(#[trigger] order[t]) as int] == t,
    ensures
        forall|v: int| 0 <= v < n ==> (#[trigger] pos[v]) < n && order[pos[v] as int] == v,
{
    assert forall|v: int| 0 <= v < n implies (#[trigger] pos[v]) < n && order[pos[v] as int]
        == v by {
        if forall|t: int| 0 <= t < n ==> (#[trigger] order[t]) as int != v {
            let f = |t: int| order[t] as int;
            let s = Set::new(|x: int| 0 <= x < n);
            let target = Set::new(|x: int| 0 <= x < n).remove(v);
            lemma_int_range_set(n);
            assert(vstd::relations::injective_on(f, s)) by {
                assert forall|a: int, b: int|
                    s.contains(a) && s.contains(b) && #[trigger] f(a) == #[trigger] f(b) implies a
                    == b by {
                    assert(pos[(order[a]) as int] == a);
                    assert(pos[(order[b]) as int] == b);
                }
            }
            vstd::set_lib::lemma_map_size(s, s.map(f), f);
            assert forall|y: int| s.map(f).contains(y) implies target.contains(y) by {
                let a = choose|a: int| s.contains(a) && y == f(a);
                assert(order[a] < n);
                assert(y != v);
            }
            assert(s.map(f).subset_of(target));
            vstd::set_lib::lemma_len_subset(s.map(f), target);
            assert(target.len() == n - 1);
        } else {
            let t = choose|t: int| 0 <= t < n && (#[trigger] order[t]) as int == v;
            assert(pos[(order[t]) as int] == t);
        }
    }
}

/// If every node is placed, the order and its inverse pair every node
/// with a position, so there are at least as many positions as nodes.
proof fn lemma_all_placed(
    ms: Seq<TaskMetaV>,
    order: Seq<usize>,
    pos: Seq<usize>,
    placed: Seq<bool>,
    count: int,
)
    requires
        order.len() == count,
        pos.len() == ms.len(),
        placed.len() == ms.len(),
        0 <= count,
        forall|v: int| 0 <= v < ms.len() && placed[v] ==> (#[trigger] pos[v]) < count,
        forall|v: int| 0 <= v < ms.len() && placed[v] ==> order[(#[trigger] pos[v]) as int] == v,
        forall|u: int| 0 <= u < ms.len() ==> #[trigger] placed[u],
    ensures
        ms.len() <= count,
{
    // `pos` maps the nodes injectively into [0, count), but there are more
    // nodes than positions.
    let f = |v: int| pos[v] as int;
    let s = Set::new(|x: int| 0 <= x < ms.len());
    let t = Set::new(|x: int| 0 <= x < count);
    lemma_int_range_set(ms.len() as int);
    lemma_int_range_set(count);
    assert forall|a: int, b: int| s.contains(a) && s.contains(b) && a != b implies f(a) != f(b) by {
        if pos[a] == pos[b] {
            assert(order[pos[a] as int] == a);
            assert(order[pos[b] as int] == b);
        }
    }
    assert(vstd::relations::injective_on(f, s));
    vstd::set_lib::lemma_map_size(s, s.map(f), f);
    assert forall|y: int| s.map(f).contains(y) implies t.contains(y) by {
        let a = choose|a: int| s.contains(a) && y == f(a);
        assert(pos[a] < count);
    }
    assert(s.map(f).subset_of(t));
    vstd::set_lib::lemma_len_subset(s.map(f), t);
}

/// When the topological scan stalls, the set of unplaced nodes is
/// nonempty and every one of its members depends on one of its members:
/// the dependency relation is not acyclic.
proof fn lemma_stall_not_acyclic(ms: Seq<TaskMetaV>, placed: Seq<bool>)
    requires
        placed.len() == ms.len(),
        forall|u: int| 0 <= u < ms.len() ==> placed[u] || spec_blocked(ms, placed, u),
        forall|a: int, b: int|
            0 <= a < ms.len() && 0 <= b < ms[a].reads.len() ==> spec_slot_written(
                ms,
                #[trigger] ms[a].reads[b],
            ),
        exists|u: int| 0 <= u < ms.len() && !placed[u],
    ensures
        !spec_acyclic(ms),
{
    let s = Set::new(|x: int| 0 <= x < ms.len() && !placed[x]);
    let u0 = choose|u: int| 0 <= u < ms.len() && !placed[u];
    assert(s.contains(u0));
    assert(s.subset_of(Set::new(|x: int| 0 <= x < ms.len())));
    lemma_int_range_set(ms.len() as int);
    vstd::set_lib::lemma_len_subset(s, Set::new(|x: int| 0 <= x < ms.len()));
    assert(s.len() > 0) by {
        if s.len() == 0 {
            assert(s.finite());
            assert(s =~= Set::<int>::empty());
        }
    }
    if spec_acyclic(ms) {
        let x = choose|x: int|
            s.contains(x) && (forall|y: int| s.contains(y) ==> !spec_depends(ms, x, y));
        assert(!placed[x]);
        assert(spec_blocked(ms, placed, x));
        let b = choose|b: int|
            0 <= b < ms[x].reads.len() && spec_no_placed_writer(ms, placed, #[trigger] ms[x].reads[b]);
        assert(spec_slot_written(ms, ms[x].reads[b]));
        let w = choose|w: int| 0 <= w < ms.len() && (#[trigger] ms[w]).writes == ms[x].reads[b];
        assert(!placed[w]);
        assert(s.contains(w));
        assert(spec_depends(ms, x, w)) by {
            assert(ms[x].reads[b] == ms[w].writes);
        }
    }
}

/// The set of integers in `[0, n)` is finite and has `n` elements.
proof fn lemma_int_range_set(n: int)
    requires
        n >= 0,
    ensures
        Set::new(|x: int| 0 <= x < n).finite(),
        Set::new(|x: int| 0 <= x < n).len() == n,
    decreases n,
{
    if n == 0 {
        assert(Set::new(|x: int| 0 <= x < 0) =~= Set::<int>::empty());
    } else {
        lemma_int_range_set(n - 1);
        assert(Set::new(|x: int| 0 <= x < n) =~= Set::new(|x: int| 0 <= x < n - 1).insert(n - 1));
    }
}

} // verus!
