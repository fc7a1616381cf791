use vstd::prelude::*;

verus! {

/// One extraction record: a transaction carrying Catalyst voting metadata,
/// as persisted in the record table. The record is owned by the block named
/// by `block_id` and never outlives it.
pub struct Model {
    /// Persistence identifier, assigned when the record is committed.
    pub id: u64,
    /// Transaction hash, lowercase hexadecimal.
    pub hash: String,
    /// Identifier of the owning block row.
    pub block_id: u64,
    /// Index of the transaction within its block.
    pub tx_index: u64,
    /// Rendered metadata entries of the transaction.
    pub metadata: String,
    /// Whether the ledger holds the transaction valid.
    pub is_valid: bool,
    /// The Catalyst metadata labels found on the transaction.
    pub metadata_labels: Vec<u64>,
    /// Rendered transaction inputs.
    pub inputs: String,
    /// Rendered transaction outputs.
    pub outputs: String,
}

/// Specification-level value of a record.
pub struct ModelV {
    pub id: u64,
    pub hash: Seq<char>,
    pub block_id: u64,
    pub tx_index: u64,
    pub metadata: Seq<char>,
    pub is_valid: bool,
    pub metadata_labels: Seq<u64>,
    pub inputs: Seq<char>,
    pub outputs: Seq<char>,
}

impl View for Model {
    type V = ModelV;

    open spec fn view(&self) -> ModelV {
        ModelV {
            id: self.id,
            hash: self.hash@,
            block_id: self.block_id,
            tx_index: self.tx_index,
            metadata: self.metadata@,
            is_valid: self.is_valid,
            metadata_labels: self.metadata_labels@,
            inputs: self.inputs@,
            outputs: self.outputs@,
        }
    }
}

impl Model {
    /// An exact copy of the record.
    pub fn duplicate(&self) -> (r: Model)
        ensures
            r@ == self@,
    {
        let mut labels: Vec<u64> = Vec::new();
        let mut i: usize = 0;
        while i < self.metadata_labels.len()
            invariant
                i <= self.metadata_labels.len(),
                labels@ =~= self.metadata_labels@.subrange(0, i as int),
            decreases self.metadata_labels.len() - i,
        {
            labels.push(self.metadata_labels[i]);
            i = i + 1;
        }
        proof {
            assert(labels@ =~= self.metadata_labels@);
        }
        let r = Model {
            id: self.id,
            hash: self.hash.clone(),
            block_id: self.block_id,
            tx_index: self.tx_index,
            metadata: self.metadata.clone(),
            is_valid: self.is_valid,
            metadata_labels: labels,
            inputs: self.inputs.clone(),
            outputs: self.outputs.clone(),
        };
        r
    }
}

} // verus!
