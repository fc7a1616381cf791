use vstd::prelude::*;
use crate::block::{BlockGlobalInfo, DecodedBlock, DecodedBlockV, TxDataV};
use crate::catalyst_txn::{Model, ModelV};
use crate::store::{BlockRow, BlockRowV, ChainStore, ChainStoreV};

verus! {

/// Configuration handed to every task.
#[derive(Clone, Copy, Debug, PartialEq, Eq, Structural)]
pub struct TaskConfig {
    /// Read existing records instead of producing new ones.
    pub readonly: bool,
    /// Keep full payloads on produced records.
    pub include_payload: bool,
}

/// Why a task failed.
#[derive(Clone, Copy, Debug, PartialEq, Eq, Structural)]
pub enum TaskError {
    /// A declared read had no value: its writer did not run for this
    /// block.
    MissingInput,
}

/// A task failure with the identity of the failing task attached.
#[derive(Clone, Copy, Debug, PartialEq, Eq, Structural)]
pub struct TaskFailure {
    pub task: u64,
    pub error: TaskError,
}

/// A value in a task output slot: absent (the writing task did not run),
/// the persisted block row, or a batch of extraction records.
pub enum SlotValue {
    Absent,
    BlockRow(BlockRow),
    Records(Vec<Model>),
}

/// Specification-level value of an output slot.
pub enum SlotValueV {
    Absent,
    BlockRow(BlockRowV),
    Records(Seq<ModelV>),
}

impl View for SlotValue {
    type V = SlotValueV;

    open spec fn view(&self) -> SlotValueV {
        match self {
            SlotValue::Absent => SlotValueV::Absent,
            SlotValue::BlockRow(b) => SlotValueV::BlockRow(b@),
            SlotValue::Records(v) => SlotValueV::Records(v@.map_values(|m: Model| m@)),
        }
    }
}

impl SlotValue {
    /// An exact copy of the slot value.
    pub fn duplicate(&self) -> (r: SlotValue)
        ensures
            r@ == self@,
    {
        match self {
            SlotValue::Absent => SlotValue::Absent,
            SlotValue::BlockRow(b) => SlotValue::BlockRow(b.duplicate()),
            SlotValue::Records(v) => {
                let mut out: Vec<Model> = Vec::new();
                let mut i: usize = 0;
                while i < v.len()
                    invariant
                        i <= v.len(),
                        out@.map_values(|m: Model| m@) =~= v@.map_values(|m: Model| m@).subrange(
                            0,
                            i as int,
                        ),
                    decreases v.len() - i,
                {
                    proof {
                        assert(v@.map_values(|m: Model| m@).subrange(0, i + 1 as int)
                            =~= v@.map_values(|m: Model| m@).subrange(0, i as int).push(
                            v@[i as int]@,
                        ));
                    }
                    out.push(v[i].duplicate());
                    i = i + 1;
                }
                proof {
                    assert(out@.map_values(|m: Model| m@) =~= v@.map_values(|m: Model| m@));
                }
                SlotValue::Records(out)
            },
        }
    }
}

/// The views of a sequence of slot values.
pub open spec fn slot_views(s: Seq<SlotValue>) -> Seq<SlotValueV> {
    s.map_values(|x: SlotValue| x@)
}

/// The view of a task result.
pub open spec fn result_view(r: Result<SlotValue, TaskError>) -> Result<SlotValueV, TaskError> {
    match r {
        Ok(v) => Ok(v@),
        Err(e) => Err(e),
    }
}

/// The contract surface an extraction task implements: a predicate that
/// says whether the task has work for a block, and an execute function
/// from the decoded block, the block's global info, the persisted block
/// row, the store, the configuration and the task's declared read slots
/// to its output-slot value. Both are pinned to specification twins, so a
/// task's behaviour is a function of its arguments: running the same task
/// twice over the same values yields the same output.
pub trait ChainTask: Sized {
    /// What `should_run` decides.
    spec fn spec_should_run(&self, block: DecodedBlockV, cfg: TaskConfig) -> bool;

    /// What `execute` produces.
    spec fn spec_execute(
        &self,
        block: DecodedBlockV,
        info: BlockGlobalInfo,
        row: BlockRowV,
        store: ChainStoreV,
        cfg: TaskConfig,
        inputs: Seq<SlotValueV>,
    ) -> Result<SlotValueV, TaskError>;

    /// Whether the task has work for `block`.
    fn should_run(&self, block: &DecodedBlock, cfg: &TaskConfig) -> (r: bool)
        ensures
            r == self.spec_should_run(block@, *cfg),
    ;

    /// Runs the task against `block`, reading only the slot values in
    /// `inputs` (one per declared read, `Absent` where the writer did not
    /// run).
    fn execute(
        &self,
        block: &DecodedBlock,
        info: &BlockGlobalInfo,
        row: &BlockRow,
        store: &ChainStore,
        cfg: &TaskConfig,
        inputs: &Vec<SlotValue>,
    ) -> (r: Result<SlotValue, TaskError>)
        ensures
            result_view(r) == self.spec_execute(block@, *info, row@, store@, *cfg, slot_views(
                inputs@,
            )),
    ;
}

/// The metadata labels that mark a transaction as a Catalyst one:
/// voting registration, submission and rewards.
pub open spec fn spec_is_catalyst_label(l: u64) -> bool {
    l == 61284 || l == 61285 || l == 61286
}

/// Whether the metadata labels of `t` mark it as a Catalyst transaction.
pub open spec fn spec_tx_is_catalyst(t: TxDataV) -> bool {
    exists|i: int|
        0 <= i < t.metadata_labels.len() && spec_is_catalyst_label(#[trigger] t.metadata_labels[i])
}

/// The record extracted from the Catalyst transaction at `idx`, before a
/// persistence identifier is assigned.
pub open spec fn spec_catalyst_record(t: TxDataV, idx: int, invalid: Seq<u64>, block_id: u64) -> ModelV {
    ModelV {
        id: 0,
        hash: t.hash,
        block_id,
        tx_index: idx as u64,
        metadata: t.metadata_json,
        is_valid: !invalid.contains(idx as u64),
        metadata_labels: t.metadata_labels.filter(|l: u64| spec_is_catalyst_label(l)),
        inputs: t.inputs_json,
        outputs: t.outputs_json,
    }
}

/// The records extracted from the first `n` transactions of `block`: one
/// per Catalyst transaction, in transaction order.
pub open spec fn spec_catalyst_records(block: DecodedBlockV, block_id: u64, n: int) -> Seq<ModelV>
    decreases n,
{
    if n <= 0 {
        Seq::empty()
    } else {
        let rest = spec_catalyst_records(block, block_id, n - 1);
        if spec_tx_is_catalyst(block.txs[n - 1]) {
            rest.push(
                spec_catalyst_record(block.txs[n - 1], n - 1, block.invalid_transactions, block_id),
            )
        } else {
            rest
        }
    }
}

/// Whether `h` is the hash of some Catalyst transaction of `block`.
pub open spec fn spec_catalyst_hash(block: DecodedBlockV, h: Seq<char>) -> bool {
    exists|i: int|
        0 <= i < block.txs.len() && spec_tx_is_catalyst(#[trigger] block.txs[i]) && block.txs[i].hash
            == h
}

/// The persisted records whose hash belongs to a Catalyst transaction of
/// `block`, in store order: what the read-only mode answers.
pub open spec fn spec_catalyst_readonly(block: DecodedBlockV, store: ChainStoreV) -> Seq<ModelV> {
    store.records.filter(|r: ModelV| spec_catalyst_hash(block, r.hash))
}

/// Whether `v` holds `x`.
pub fn contains_u64(v: &Vec<u64>, x: u64) -> (r: bool)
    ensures
        r == v@.contains(x),
{
    let mut i: usize = 0;
    while i < v.len()
        invariant
            i <= v.len(),
            forall|j: int| 0 <= j < i ==> v@[j] != x,
        decreases v.len() - i,
    {
        if v[i] == x {
            return true;
        }
        i = i + 1;
    }
    proof {
        assert(!v@.contains(x));
    }
    false
}

/// Whether any label of `labels` is a Catalyst label.
fn has_catalyst_label(labels: &Vec<u64>) -> (r: bool)
    ensures
        r == exists|i: int|
            0 <= i < labels@.len() && spec_is_catalyst_label(#[trigger] labels@[i]),
{
    let mut i: usize = 0;
    while i < labels.len()
        invariant
            i <= labels.len(),
            forall|j: int| 0 <= j < i ==> !spec_is_catalyst_label(#[trigger] labels@[j]),
        decreases labels.len() - i,
    {
        let l = labels[i];
        if l == 61284 || l == 61285 || l == 61286 {
            return true;
        }
        i = i + 1;
    }
    false
}

/// `s.push(x)` filtered is `s` filtered, with `x` appended when it
/// satisfies the predicate.
proof fn lemma_filter_push<A>(s: Seq<A>, pred: spec_fn(A) -> bool, x: A)
    ensures
        s.push(x).filter(pred) == (if pred(x) {
            s.filter(pred).push(x)
        } else {
            s.filter(pred)
        }),
{
    reveal(Seq::filter);
    assert(s.push(x).drop_last() =~= s);
    assert(s.push(x).last() == x);
}

/// Extracts the Catalyst records of `block`. In read-only mode, answers
/// the persisted records whose hash belongs to a Catalyst transaction of
/// the block, in store order; otherwise builds one fresh record per
/// Catalyst transaction, in transaction order, owned by `database_block`
/// and marked invalid where the ledger lists the transaction as invalid.
pub fn handle_catalyst_tx(
    block: &DecodedBlock,
    database_block: &BlockRow,
    store: &ChainStore,
    readonly: bool,
    include_payload: bool,
) -> (r: Vec<Model>)
    ensures
        readonly ==> r@.map_values(|m: Model| m@) == spec_catalyst_readonly(block@, store@),
        !readonly ==> r@.map_values(|m: Model| m@) == spec_catalyst_records(
            block@,
            database_block@.id,
            block@.txs.len() as int,
        ),
{
    let _ = include_payload;
    if readonly {
        let mut out: Vec<Model> = Vec::new();
        let mut i: usize = 0;
        while i < store.records.len()
            invariant
                i <= store.records.len(),
                store@.records.len() == store.records.len(),
                out@.map_values(|m: Model| m@) =~= store@.records.subrange(0, i as int).filter(
                    |r: ModelV| spec_catalyst_hash(block@, r.hash),
                ),
            decreases store.records.len() - i,
        {
            proof {
                assert(store@.records.subrange(0, i + 1 as int) =~= store@.records.subrange(
                    0,
                    i as int,
                ).push(store@.records[i as int]));
                lemma_filter_push(
                    store@.records.subrange(0, i as int),
                    |r: ModelV| spec_catalyst_hash(block@, r.hash),
                    store@.records[i as int],
                );
            }
            if record_matches_catalyst(block, &store.records[i].hash) {
                out.push(store.records[i].duplicate());
            }
            i = i + 1;
        }
        proof {
            assert(store@.records.subrange(0, store@.records.len() as int) =~= store@.records);
        }
        out
    } else {
        let mut out: Vec<Model> = Vec::new();
        let mut i: usize = 0;
        while i < block.txs.len()
            invariant
                i <= block.txs.len(),
                block@.txs.len() == block.txs.len(),
                out@.map_values(|m: Model| m@) =~= spec_catalyst_records(
                    block@,
                    database_block@.id,
                    i as int,
                ),
            decreases block.txs.len() - i,
        {
            let t = &block.txs[i];
            proof {
                assert(block@.txs[i as int] == block.txs@[i as int]@);
            }
            if has_catalyst_label(&t.metadata_labels) {
                let mut labels: Vec<u64> = Vec::new();
                let mut j: usize = 0;
                while j < t.metadata_labels.len()
                    invariant
                        j <= t.metadata_labels.len(),
                        labels@ =~= t.metadata_labels@.subrange(0, j as int).filter(
                            |l: u64| spec_is_catalyst_label(l),
                        ),
                    decreases t.metadata_labels.len() - j,
                {
                    proof {
                        assert(t.metadata_labels@.subrange(0, j + 1 as int)
                            =~= t.metadata_labels@.subrange(0, j as int).push(
                            t.metadata_labels@[j as int],
                        ));
                        lemma_filter_push(
                            t.metadata_labels@.subrange(0, j as int),
                            |l: u64| spec_is_catalyst_label(l),
                            t.metadata_labels@[j as int],
                        );
                    }
                    let l = t.metadata_labels[j];
                    if l == 61284 || l == 61285 || l == 61286 {
                        labels.push(l);
                    }
                    j = j + 1;
                }
                proof {
                    assert(t.metadata_labels@.subrange(0, t.metadata_labels@.len() as int)
                        =~= t.metadata_labels@);
                }
                let m = Model {
                    id: 0,
                    hash: t.hash.clone(),
                    block_id: database_block.id,
                    tx_index: i as u64,
                    metadata: t.metadata_json.clone(),
                    is_valid: !contains_u64(&block.invalid_transactions, i as u64),
                    metadata_labels: labels,
                    inputs: t.inputs_json.clone(),
                    outputs: t.outputs_json.clone(),
                };
                out.push(m);
                proof {
                    assert(out@.map_values(|m: Model| m@).last() == spec_catalyst_record(
                        block@.txs[i as int],
                        i as int,
                        block@.invalid_transactions,
                        database_block@.id,
                    ));
                    assert(out@.map_values(|m: Model| m@) =~= spec_catalyst_records(
                        block@,
                        database_block@.id,
                        i + 1 as int,
                    ));
                }
            } else {
                proof {
                    assert(!spec_tx_is_catalyst(block@.txs[i as int]));
                }
            }
            i = i + 1;
        }
        out
    }
}

/// Whether `h` is the hash of some Catalyst transaction of `block`.
fn record_matches_catalyst(block: &DecodedBlock, h: &String) -> (r: bool)
    ensures
        r == spec_catalyst_hash(block@, h@),
{
    let mut i: usize = 0;
    while i < block.txs.len()
        invariant
            i <= block.txs.len(),
            block@.txs.len() == block.txs.len(),
            forall|j: int|
                0 <= j < i ==> !(spec_tx_is_catalyst(#[trigger] block@.txs[j]) && block@.txs[j].hash
                    == h@),
        decreases block.txs.len() - i,
    {
        proof {
            assert(block@.txs[i as int] == block.txs@[i as int]@);
        }
        if has_catalyst_label(&block.txs[i].metadata_labels) && block.txs[i].hash == *h {
            proof {
                let labels = block.txs@[i as int].metadata_labels@;
                assert(block@.txs[i as int].metadata_labels == labels);
                let j = choose|j: int|
                    0 <= j < labels.len() && spec_is_catalyst_label(#[trigger] labels[j]);
                assert(spec_is_catalyst_label(block@.txs[i as int].metadata_labels[j]));
                assert(spec_tx_is_catalyst(block@.txs[i as int]));
                assert(block@.txs[i as int].hash == h@);
            }
            return true;
        }
        i = i + 1;
    }
    false
}

/// Provides the persisted block row to downstream tasks: the analogue of
/// the block task every transaction-level task declares a read on.
pub struct MultieraBlockTask {}

impl ChainTask for MultieraBlockTask {
    open spec fn spec_should_run(&self, block: DecodedBlockV, cfg: TaskConfig) -> bool {
        true
    }

    open spec fn spec_execute(
        &self,
        block: DecodedBlockV,
        info: BlockGlobalInfo,
        row: BlockRowV,
        store: ChainStoreV,
        cfg: TaskConfig,
        inputs: Seq<SlotValueV>,
    ) -> Result<SlotValueV, TaskError> {
        Ok(SlotValueV::BlockRow(row))
    }

    fn should_run(&self, block: &DecodedBlock, cfg: &TaskConfig) -> (r: bool) {
        true
    }

    fn execute(
        &self,
        block: &DecodedBlock,
        info: &BlockGlobalInfo,
        row: &BlockRow,
        store: &ChainStore,
        cfg: &TaskConfig,
        inputs: &Vec<SlotValue>,
    ) -> (r: Result<SlotValue, TaskError>) {
        Ok(SlotValue::BlockRow(row.duplicate()))
    }
}

/// Filters and extracts Catalyst transactions (metadata labels 61284,
/// 61285 and 61286) from the block, reading the block row its declared
/// upstream slot carries.
pub struct CatalystTransactionTask {}

impl ChainTask for CatalystTransactionTask {
    open spec fn spec_should_run(&self, block: DecodedBlockV, cfg: TaskConfig) -> bool {
        block.txs.len() > 0 && !block.aux_empty
    }

    open spec fn spec_execute(
        &self,
        block: DecodedBlockV,
        info: BlockGlobalInfo,
        row: BlockRowV,
        store: ChainStoreV,
        cfg: TaskConfig,
        inputs: Seq<SlotValueV>,
    ) -> Result<SlotValueV, TaskError> {
        if inputs.len() < 1 {
            Err(TaskError::MissingInput)
        } else {
            match inputs[0] {
                SlotValueV::BlockRow(dbrow) => {
                    if cfg.readonly {
                        Ok(SlotValueV::Records(spec_catalyst_readonly(block, store)))
                    } else {
                        Ok(
                            SlotValueV::Records(
                                spec_catalyst_records(block, dbrow.id, block.txs.len() as int),
                            ),
                        )
                    }
                },
                _ => Err(TaskError::MissingInput),
            }
        }
    }

    fn should_run(&self, block: &DecodedBlock, cfg: &TaskConfig) -> (r: bool) {
        !block.is_empty() && !block.aux_empty
    }

    fn execute(
        &self,
        block: &DecodedBlock,
        info: &BlockGlobalInfo,
        row: &BlockRow,
        store: &ChainStore,
        cfg: &TaskConfig,
        inputs: &Vec<SlotValue>,
    ) -> (r: Result<SlotValue, TaskError>) {
        if inputs.len() < 1 {
            return Err(TaskError::MissingInput);
        }
        match &inputs[0] {
            SlotValue::BlockRow(dbrow) => {
                let recs = handle_catalyst_tx(block, dbrow, store, cfg.readonly, cfg.include_payload);
                proof {
                    assert(slot_views(inputs@)[0] == inputs@[0]@);
                }
                Ok(SlotValue::Records(recs))
            },
            _ => {
                proof {
                    assert(slot_views(inputs@)[0] == inputs@[0]@);
                }
                Err(TaskError::MissingInput)
            },
        }
    }
}

/// The closed set of tasks this library ships, dispatching the task
/// contract over its variants so that one plan can mix them.
pub enum TaskKind {
    MultieraBlock(MultieraBlockTask),
    Catalyst(CatalystTransactionTask),
}

impl ChainTask for TaskKind {
    open spec fn spec_should_run(&self, block: DecodedBlockV, cfg: TaskConfig) -> bool {
        match self {
            TaskKind::MultieraBlock(t) => t.spec_should_run(block, cfg),
            TaskKind::Catalyst(t) => t.spec_should_run(block, cfg),
        }
    }

    open spec fn spec_execute(
        &self,
        block: DecodedBlockV,
        info: BlockGlobalInfo,
        row: BlockRowV,
        store: ChainStoreV,
        cfg: TaskConfig,
        inputs: Seq<SlotValueV>,
    ) -> Result<SlotValueV, TaskError> {
        match self {
            TaskKind::MultieraBlock(t) => t.spec_execute(block, info, row, store, cfg, inputs),
            TaskKind::Catalyst(t) => t.spec_execute(block, info, row, store, cfg, inputs),
        }
    }

    fn should_run(&self, block: &DecodedBlock, cfg: &TaskConfig) -> (r: bool) {
        match self {
            TaskKind::MultieraBlock(t) => t.should_run(block, cfg),
            TaskKind::Catalyst(t) => t.should_run(block, cfg),
        }
    }

    fn execute(
        &self,
        block: &DecodedBlock,
        info: &BlockGlobalInfo,
        row: &BlockRow,
        store: &ChainStore,
        cfg: &TaskConfig,
        inputs: &Vec<SlotValue>,
    ) -> (r: Result<SlotValue, TaskError>) {
        match self {
            TaskKind::MultieraBlock(t) => t.execute(block, info, row, store, cfg, inputs),
            TaskKind::Catalyst(t) => t.execute(block, info, row, store, cfg, inputs),
        }
    }
}

} // verus!
