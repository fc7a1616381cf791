use vstd::prelude::*;
use vstd::seq_lib::*;
use crate::era::EraValue;
use crate::catalyst_txn::{Model, ModelV};

verus! {

/// One persisted block row: its persistence identifier, its hash, its
/// absolute slot, its era and its height.
pub struct BlockRow {
    pub id: u64,
    pub hash: Vec<u8>,
    pub slot: u64,
    pub era: EraValue,
    pub block_number: u64,
}

/// Specification-level value of a block row.
pub struct BlockRowV {
    pub id: u64,
    pub hash: Seq<u8>,
    pub slot: u64,
    pub era: EraValue,
    pub block_number: u64,
}

impl View for BlockRow {
    type V = BlockRowV;

    open spec fn view(&self) -> BlockRowV {
        BlockRowV {
            id: self.id,
            hash: self.hash@,
            slot: self.slot,
            era: self.era,
            block_number: self.block_number,
        }
    }
}

impl BlockRow {
    /// An exact copy of the row.
    pub fn duplicate(&self) -> (r: BlockRow)
        ensures
            r@ == self@,
    {
        BlockRow {
            id: self.id,
            hash: clone_bytes(&self.hash),
            slot: self.slot,
            era: self.era,
            block_number: self.block_number,
        }
    }
}

/// A chain position: the slot and hash of one known block, handed to the
/// upstream source when negotiating where streaming resumes.
pub struct Point {
    pub slot_nb: u64,
    pub hash: Vec<u8>,
}

/// An exact copy of a byte vector.
pub fn clone_bytes(v: &Vec<u8>) -> (r: Vec<u8>)
    ensures
        r@ == v@,
{
    let mut r: Vec<u8> = Vec::new();
    let mut i: usize = 0;
    while i < v.len()
        invariant
            i <= v.len(),
            r@ =~= v@.subrange(0, i as int),
        decreases v.len() - i,
    {
        r.push(v[i]);
        i = i + 1;
    }
    proof {
        assert(r@ =~= v@);
    }
    r
}

/// Whether two byte vectors hold the same bytes.
pub fn bytes_eq(a: &Vec<u8>, b: &Vec<u8>) -> (r: bool)
    ensures
        r == (a@ == b@),
{
    if a.len() != b.len() {
        return false;
    }
    let mut i: usize = 0;
    while i < a.len()
        invariant
            a@.len() == b@.len(),
            i <= a@.len(),
            forall|j: int| 0 <= j < i ==> a@[j] == b@[j],
        decreases a.len() - i,
    {
        if a[i] != b[i] {
            return false;
        }
        i = i + 1;
    }
    proof {
        assert(a@ =~= b@);
    }
    true
}

/// Raised by the store when an insert would break its invariant.
#[derive(Clone, Copy, Debug, PartialEq, Eq, Structural)]
pub enum StoreError {
    /// A block with the same hash is already persisted.
    DuplicateHash,
}

/// The record `m` with its persistence identifier set to `id`.
pub open spec fn record_with_id(m: ModelV, id: u64) -> ModelV {
    ModelV {
        id,
        hash: m.hash,
        block_id: m.block_id,
        tx_index: m.tx_index,
        metadata: m.metadata,
        is_valid: m.is_valid,
        metadata_labels: m.metadata_labels,
        inputs: m.inputs,
        outputs: m.outputs,
    }
}

/// The persisted state the ingestion controller works against: block rows
/// and the extraction records they own, with the next free identifier of
/// each. Block identifiers are assigned in strictly increasing order and
/// never reused, so identifier order is arrival order.
pub struct ChainStore {
    pub blocks: Vec<BlockRow>,
    pub records: Vec<Model>,
    pub next_block_id: u64,
    pub next_record_id: u64,
}

/// Specification-level value of the store.
pub struct ChainStoreV {
    pub blocks: Seq<BlockRowV>,
    pub records: Seq<ModelV>,
    pub next_block_id: u64,
    pub next_record_id: u64,
}

impl View for ChainStore {
    type V = ChainStoreV;

    open spec fn view(&self) -> ChainStoreV {
        ChainStoreV {
            blocks: self.blocks@.map_values(|b: BlockRow| b@),
            records: self.records@.map_values(|r: Model| r@),
            next_block_id: self.next_block_id,
            next_record_id: self.next_record_id,
        }
    }
}

impl ChainStoreV {
    /// The store's invariant: block identifiers strictly increase in
    /// arrival order and stay below the next free identifier; no two
    /// blocks share a hash; every record names a persisted block as its
    /// owner; records arrive in owning-block order; record identifiers
    /// strictly increase and stay below the next free record identifier.
    pub open spec fn wf(self) -> bool {
        &&& forall|i: int, j: int|
            0 <= i < j < self.blocks.len() ==> (#[trigger] self.blocks[i]).id < (
            #[trigger] self.blocks[j]).id
        &&& forall|i: int|
            0 <= i < self.blocks.len() ==> (#[trigger] self.blocks[i]).id < self.next_block_id
        &&& forall|i: int, j: int|
            0 <= i < j < self.blocks.len() ==> (#[trigger] self.blocks[i]).hash != (
            #[trigger] self.blocks[j]).hash
        &&& forall|i: int|
            0 <= i < self.records.len() ==> self.has_block_id(
                (#[trigger] self.records[i]).block_id,
            )
        &&& forall|i: int, j: int|
            0 <= i < j < self.records.len() ==> (#[trigger] self.records[i]).block_id <= (
            #[trigger] self.records[j]).block_id
        &&& forall|i: int, j: int|
            0 <= i < j < self.records.len() ==> (#[trigger] self.records[i]).id < (
            #[trigger] self.records[j]).id
        &&& forall|i: int|
            0 <= i < self.records.len() ==> (#[trigger] self.records[i]).id < self.next_record_id
    }

    /// Whether some persisted block carries `hash`.
    pub open spec fn has_hash(self, hash: Seq<u8>) -> bool {
        exists|i: int| 0 <= i < self.blocks.len() && (#[trigger] self.blocks[i]).hash == hash
    }

    /// Whether some persisted block has the identifier `bid`.
    pub open spec fn has_block_id(self, bid: u64) -> bool {
        exists|k: int| 0 <= k < self.blocks.len() && (#[trigger] self.blocks[k]).id == bid
    }
}

impl ChainStore {
    /// An empty store.
    pub fn new() -> (r: ChainStore)
        ensures
            r@.wf(),
            r@.blocks.len() == 0,
            r@.records.len() == 0,
            r@.next_block_id == 1,
            r@.next_record_id == 1,
    {
        let r = ChainStore {
            blocks: Vec::new(),
            records: Vec::new(),
            next_block_id: 1,
            next_record_id: 1,
        };
        proof {
            assert(r@.blocks =~= Seq::<BlockRowV>::empty());
            assert(r@.records =~= Seq::<ModelV>::empty());
        }
        r
    }

    /// How many blocks are persisted.
    pub fn count_blocks(&self) -> (r: usize)
        ensures
            r == self@.blocks.len(),
    {
        self.blocks.len()
    }

    /// The index of the persisted block carrying `hash`, if any.
    pub fn find_block_by_hash(&self, hash: &Vec<u8>) -> (r: Option<usize>)
        ensures
            r is Some <==> self@.has_hash(hash@),
            r is Some ==> {
                let i = r->Some_0;
                &&& i < self@.blocks.len()
                &&& self@.blocks[i as int].hash == hash@
            },
    {
        let mut i: usize = 0;
        while i < self.blocks.len()
            invariant
                i <= self.blocks.len(),
                self@.blocks.len() == self.blocks.len(),
                forall|j: int| 0 <= j < i ==> (#[trigger] self@.blocks[j]).hash != hash@,
            decreases self.blocks.len() - i,
        {
            if bytes_eq(&self.blocks[i].hash, hash) {
                return Some(i);
            }
            i = i + 1;
        }
        None
    }

    /// A borrow of the block row at `i`.
    pub fn block_at(&self, i: usize) -> (r: &BlockRow)
        requires
            i < self@.blocks.len(),
        ensures
            r@ == self@.blocks[i as int],
    {
        &self.blocks[i]
    }

    /// Persists one block row. The new row gets the next free identifier,
    /// which is strictly greater than every persisted identifier:
    /// identifier order is arrival order. A block whose hash is already
    /// persisted is refused and the store is left unchanged.
    pub fn insert_block(
        &mut self,
        hash: Vec<u8>,
        slot: u64,
        era: EraValue,
        block_number: u64,
    ) -> (r: Result<u64, StoreError>)
        requires
            old(self)@.wf(),
            old(self)@.next_block_id < u64::MAX,
        ensures
            final(self)@.wf(),
            r is Ok <==> !old(self)@.has_hash(hash@),
            r is Err ==> final(self)@ == old(self)@,
            r is Ok ==> {
                let row = BlockRowV {
                    id: old(self)@.next_block_id,
                    hash: hash@,
                    slot,
                    era,
                    block_number,
                };
                &&& r->Ok_0 == old(self)@.next_block_id
                &&& final(self)@.blocks =~= old(self)@.blocks.push(row)
                &&& final(self)@.records =~= old(self)@.records
                &&& final(self)@.next_block_id == old(self)@.next_block_id + 1
                &&& final(self)@.next_record_id == old(self)@.next_record_id
            },
    {
        if let Some(_i) = self.find_block_by_hash(&hash) {
            return Err(StoreError::DuplicateHash);
        }
        let id = self.next_block_id;
        let ghost pre = self@;
        let ghost hash_v = hash@;
        let row = BlockRow { id, hash, slot, era, block_number };
        self.blocks.push(row);
        self.next_block_id = id + 1;
        proof {
            assert(self@.blocks =~= pre.blocks.push(
                BlockRowV { id, hash: hash_v, slot, era, block_number },
            ));
            assert(self@.records =~= pre.records);
            assert(self@.records == pre.records);
            assert(self@.next_record_id == pre.next_record_id);
            assert forall|i: int, j: int| 0 <= i < j < self@.blocks.len() implies (
            #[trigger] self@.blocks[i]).hash != (#[trigger] self@.blocks[j]).hash by {
                if j == self@.blocks.len() - 1 {
                    assert(!pre.has_hash(hash_v));
                    assert(pre.blocks[i].hash != hash_v);
                }
            }
            assert forall|i: int, j: int| 0 <= i < j < self@.blocks.len() implies (
            #[trigger] self@.blocks[i]).id < (#[trigger] self@.blocks[j]).id by {
                if j == self@.blocks.len() - 1 {
                    assert(pre.blocks[i].id < pre.next_block_id);
                }
            }
            assert forall|i: int|
                0 <= i < self@.records.len() implies self@.has_block_id(
                (#[trigger] self@.records[i]).block_id,
            ) by {
                assert(self@.records[i] == pre.records[i]);
                assert(pre.has_block_id(pre.records[i].block_id));
                let k = choose|k: int|
                    0 <= k < pre.blocks.len() && (#[trigger] pre.blocks[k]).id
                        == pre.records[i].block_id;
                assert(self@.blocks[k] == pre.blocks[k]);
            }
        }
        Ok(id)
    }

    /// Persists a batch of extraction records, all owned by the block named
    /// by `block_id`, assigning each the next free record identifier in
    /// order.
    pub fn insert_records(&mut self, recs: &Vec<Model>, block_id: u64) -> (count: usize)
        requires
            old(self)@.wf(),
            old(self)@.has_block_id(block_id),
            forall|i: int| 0 <= i < recs@.len() ==> (#[trigger] recs@[i])@.block_id == block_id,
            forall|i: int|
                0 <= i < old(self)@.records.len() ==> (#[trigger] old(
                    self,
                )@.records[i]).block_id <= block_id,
            old(self)@.next_record_id + recs@.len() <= u64::MAX,
        ensures
            final(self)@.wf(),
            count == recs@.len(),
            final(self)@.blocks == old(self)@.blocks,
            final(self)@.next_block_id == old(self)@.next_block_id,
            final(self)@.next_record_id == old(self)@.next_record_id + recs@.len(),
            final(self)@.records.len() == old(self)@.records.len() + recs@.len(),
            forall|i: int|
                0 <= i < old(self)@.records.len() ==> final(self)@.records[i] == old(
                    self,
                )@.records[i],
            forall|i: int|
                0 <= i < recs@.len() ==> final(self)@.records[old(self)@.records.len() + i]
                    == record_with_id(recs@[i]@, (old(self)@.next_record_id + i) as u64),
    {
        let ghost pre = self@;
        let mut i: usize = 0;
        while i < recs.len()
            invariant
                pre.wf(),
                self@.wf(),
                i <= recs@.len(),
                pre.has_block_id(block_id),
                forall|j: int| 0 <= j < recs@.len() ==> (#[trigger] recs@[j])@.block_id == block_id,
                forall|j: int|
                    0 <= j < pre.records.len() ==> (#[trigger] pre.records[j]).block_id <= block_id,
                pre.next_record_id + recs@.len() <= u64::MAX,
                self@.blocks == pre.blocks,
                self@.next_block_id == pre.next_block_id,
                self@.next_record_id == pre.next_record_id + i,
                self@.records.len() == pre.records.len() + i,
                forall|j: int| 0 <= j < pre.records.len() ==> self@.records[j] == pre.records[j],
                forall|j: int|
                    0 <= j < i ==> self@.records[pre.records.len() + j] == record_with_id(
                        recs@[j]@,
                        (pre.next_record_id + j) as u64,
                    ),
            decreases recs@.len() - i,
        {
            let mut r = recs[i].duplicate();
            r.id = self.next_record_id;
            let ghost mid = self@;
            self.records.push(r);
            self.next_record_id = self.next_record_id + 1;
            proof {
                assert(self@.records =~= mid.records.push(record_with_id(
                    recs@[i as int]@,
                    (pre.next_record_id + i) as u64,
                )));
                let n = self@.records.len();
                assert(self@.records[n - 1].block_id == block_id);
                assert forall|a: int, b: int| 0 <= a < b < n implies (
                #[trigger] self@.records[a]).id < (#[trigger] self@.records[b]).id by {
                    if b == n - 1 {
                        assert(mid.records[a].id < mid.next_record_id);
                    }
                }
                assert forall|a: int, b: int| 0 <= a < b < n implies (
                #[trigger] self@.records[a]).block_id <= (#[trigger] self@.records[b]).block_id by {
                    if b == n - 1 {
                        if a < pre.records.len() {
                            assert(self@.records[a] == pre.records[a]);
                            assert(pre.records[a].block_id <= block_id);
                        } else {
                            let j = a - pre.records.len();
                            assert(mid.records[a] == record_with_id(
                                recs@[j]@,
                                (pre.next_record_id + j) as u64,
                            ));
                            assert(self@.records[a].block_id == block_id);
                        }
                    }
                }
                assert forall|a: int|
                    0 <= a < n implies self@.has_block_id(
                    (#[trigger] self@.records[a]).block_id,
                ) by {
                    if a < mid.records.len() {
                        assert(mid.has_block_id(mid.records[a].block_id));
                        let k = choose|k: int|
                            0 <= k < mid.blocks.len() && (#[trigger] mid.blocks[k]).id
                                == mid.records[a].block_id;
                        assert(self@.blocks[k] == mid.blocks[k]);
                    } else {
                        assert(pre.has_block_id(block_id));
                        let k = choose|k: int|
                            0 <= k < pre.blocks.len() && (#[trigger] pre.blocks[k]).id == block_id;
                        assert(self@.blocks[k] == pre.blocks[k]);
                        assert(self@.records[a].block_id == block_id);
                    }
                }
            }
            i = i + 1;
        }
        recs.len()
    }

    /// Deletes every block whose identifier is strictly greater than `id`,
    /// and, cascading, every record owned by a deleted block. What stays
    /// is exactly the blocks with identifier at most `id`, and exactly the
    /// records owned by those blocks: no orphan survives.
    pub fn delete_blocks_after(&mut self, id: u64)
        requires
            old(self)@.wf(),
        ensures
            final(self)@.wf(),
            final(self)@.blocks =~= old(self)@.blocks.filter(|b: BlockRowV| b.id <= id),
            final(self)@.records =~= old(self)@.records.filter(|r: ModelV| r.block_id <= id),
            final(self)@.next_block_id == old(self)@.next_block_id,
            final(self)@.next_record_id == old(self)@.next_record_id,
    {
        let ghost pre = self@;
        let mut k: usize = 0;
        while k < self.blocks.len() && self.blocks[k].id <= id
            invariant
                pre.wf(),
                self@ == pre,
                k <= pre.blocks.len(),
                forall|j: int| 0 <= j < k ==> (#[trigger] pre.blocks[j]).id <= id,
            decreases self.blocks.len() - k,
        {
            k = k + 1;
        }
        proof {
            assert forall|j: int| k <= j < pre.blocks.len() implies (
            #[trigger] pre.blocks[j]).id > id by {
                if j > k {
                    assert(pre.blocks[k as int].id < pre.blocks[j].id);
                }
            }
        }
        let mut m: usize = 0;
        while m < self.records.len() && self.records[m].block_id <= id
            invariant
                pre.wf(),
                self@ == pre,
                m <= pre.records.len(),
                forall|j: int| 0 <= j < m ==> (#[trigger] pre.records[j]).block_id <= id,
            decreases self.records.len() - m,
        {
            m = m + 1;
        }
        proof {
            assert forall|j: int| m <= j < pre.records.len() implies (
            #[trigger] pre.records[j]).block_id > id by {
                if j > m {
                    assert(pre.records[m as int].block_id <= pre.records[j].block_id);
                }
            }
        }
        self.blocks.truncate(k);
        self.records.truncate(m);
        proof {
            assert(self@.blocks =~= pre.blocks.subrange(0, k as int));
            assert(self@.records =~= pre.records.subrange(0, m as int));
            lemma_filter_split(pre.blocks, |b: BlockRowV| b.id <= id, k as int);
            lemma_filter_split(pre.records, |r: ModelV| r.block_id <= id, m as int);
            assert forall|i: int|
                0 <= i < self@.records.len() implies self@.has_block_id(
                (#[trigger] self@.records[i]).block_id,
            ) by {
                let r = pre.records[i];
                assert(self@.records[i] == pre.records[i]);
                assert(pre.has_block_id(pre.records[i].block_id));
                let kk = choose|kk: int|
                    0 <= kk < pre.blocks.len() && (#[trigger] pre.blocks[kk]).id == r.block_id;
                assert(pre.blocks[kk].id == r.block_id);
                assert(r.block_id <= id);
                assert(kk < k) by {
                    if kk >= k {
                        assert(pre.blocks[kk].id > id);
                    }
                }
                assert(self@.blocks[kk] == pre.blocks[kk]);
            }
            assert forall|i: int, j: int| 0 <= i < j < self@.blocks.len() implies (
            #[trigger] self@.blocks[i]).id < (#[trigger] self@.blocks[j]).id by {
                assert(self@.blocks[i] == pre.blocks[i]);
                assert(self@.blocks[j] == pre.blocks[j]);
            }
            assert forall|i: int, j: int| 0 <= i < j < self@.blocks.len() implies (
            #[trigger] self@.blocks[i]).hash != (#[trigger] self@.blocks[j]).hash by {
                assert(self@.blocks[i] == pre.blocks[i]);
                assert(self@.blocks[j] == pre.blocks[j]);
            }
            assert forall|i: int|
                0 <= i < self@.blocks.len() implies (#[trigger] self@.blocks[i]).id
                < self@.next_block_id by {
                assert(self@.blocks[i] == pre.blocks[i]);
            }
            assert forall|i: int, j: int| 0 <= i < j < self@.records.len() implies (
            #[trigger] self@.records[i]).id < (#[trigger] self@.records[j]).id by {
                assert(self@.records[i] == pre.records[i]);
                assert(self@.records[j] == pre.records[j]);
            }
            assert forall|i: int, j: int| 0 <= i < j < self@.records.len() implies (
            #[trigger] self@.records[i]).block_id <= (#[trigger] self@.records[j]).block_id by {
                assert(self@.records[i] == pre.records[i]);
                assert(self@.records[j] == pre.records[j]);
            }
            assert forall|i: int|
                0 <= i < self@.records.len() implies (#[trigger] self@.records[i]).id
                < self@.next_record_id by {
                assert(self@.records[i] == pre.records[i]);
            }
        }
    }

    /// The newest persisted point, if any: the slot and hash of the block
    /// with the greatest identifier.
    pub fn latest_point(&self) -> (r: Option<Point>)
        requires
            self@.wf(),
        ensures
            r is Some <==> self@.blocks.len() > 0,
            r is Some ==> {
                let b = self@.blocks.last();
                r->Some_0.slot_nb == b.slot && r->Some_0.hash@ == b.hash
            },
    {
        if self.blocks.len() == 0 {
            return None;
        }
        let b = &self.blocks[self.blocks.len() - 1];
        Some(Point { slot_nb: b.slot, hash: clone_bytes(&b.hash) })
    }

    /// The point immediately before the block at index `i`: the slot and
    /// hash of the persisted block preceding it in identifier order, or
    /// `None` when that block is the oldest one.
    pub fn point_before(&self, i: usize) -> (r: Option<Point>)
        requires
            self@.wf(),
            i < self@.blocks.len(),
        ensures
            r is Some <==> i > 0,
            r is Some ==> {
                let b = self@.blocks[i - 1];
                r->Some_0.slot_nb == b.slot && r->Some_0.hash@ == b.hash
            },
    {
        if i == 0 {
            return None;
        }
        let b = &self.blocks[i - 1];
        Some(Point { slot_nb: b.slot, hash: clone_bytes(&b.hash) })
    }
}

/// Block identifier order is arrival order, and no hash repeats: in a
/// well-formed store the persisted identifiers strictly increase along
/// the persisted sequence and no two blocks share a hash. Every
/// operation of the store keeps it well formed, so this holds after any
/// sequence of arrivals and rollbacks.
pub proof fn lemma_order_is_arrival_and_hashes_unique(s: ChainStoreV)
    requires
        s.wf(),
    ensures
        forall|i: int, j: int|
            0 <= i < j < s.blocks.len() ==> (#[trigger] s.blocks[i]).id < (
            #[trigger] s.blocks[j]).id,
        forall|i: int, j: int|
            0 <= i < j < s.blocks.len() ==> (#[trigger] s.blocks[i]).hash != (
            #[trigger] s.blocks[j]).hash,
{
}

/// Filtering a sequence whose first `k` elements satisfy the predicate and
/// whose remaining elements do not keeps exactly the first `k` elements.
proof fn lemma_filter_split<A>(s: Seq<A>, pred: spec_fn(A) -> bool, k: int)
    requires
        0 <= k <= s.len(),
        forall|i: int| 0 <= i < k ==> pred(#[trigger] s[i]),
        forall|i: int| k <= i < s.len() ==> !pred(#[trigger] s[i]),
    ensures
        s.filter(pred) =~= s.subrange(0, k),
{
    let prefix = s.subrange(0, k);
    let suffix = s.subrange(k, s.len() as int);
    assert(s =~= prefix + suffix);
    Seq::<A>::filter_distributes_over_add(prefix, suffix, pred);
    lemma_filter_all_true(prefix, pred);
    lemma_filter_all_false(suffix, pred);
    assert(s.filter(pred) == (prefix + suffix).filter(pred));
}

/// Filtering keeps a sequence whose elements all satisfy the predicate.
proof fn lemma_filter_all_true<A>(s: Seq<A>, pred: spec_fn(A) -> bool)
    requires
        forall|i: int| 0 <= i < s.len() ==> pred(#[trigger] s[i]),
    ensures
        s.filter(pred) =~= s,
    decreases s.len(),
{
    reveal(Seq::filter);
    if s.len() > 0 {
        lemma_filter_all_true(s.drop_last(), pred);
    }
}

/// Filtering empties a sequence none of whose elements satisfies the
/// predicate.
proof fn lemma_filter_all_false<A>(s: Seq<A>, pred: spec_fn(A) -> bool)
    requires
        forall|i: int| 0 <= i < s.len() ==> !pred(#[trigger] s[i]),
    ensures
        s.filter(pred) =~= Seq::<A>::empty(),
    decreases s.len(),
{
    reveal(Seq::filter);
    if s.len() > 0 {
        lemma_filter_all_false(s.drop_last(), pred);
    }
}

} // verus!
