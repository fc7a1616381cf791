use vstd::prelude::*;
use crate::era::EraValue;

verus! {

/// What the extraction tasks read of one transaction of a decoded block:
/// its hash (lowercase hexadecimal), whether the block's auxiliary-data set
/// holds an entry for it, the metadata labels of that entry, and the
/// rendered metadata, input and output payloads.
pub struct TxData {
    pub hash: String,
    pub has_aux: bool,
    pub metadata_labels: Vec<u64>,
    pub metadata_json: String,
    pub inputs_json: String,
    pub outputs_json: String,
}

/// Specification-level value of a `TxData`.
pub struct TxDataV {
    pub hash: Seq<char>,
    pub has_aux: bool,
    pub metadata_labels: Seq<u64>,
    pub metadata_json: Seq<char>,
    pub inputs_json: Seq<char>,
    pub outputs_json: Seq<char>,
}

impl View for TxData {
    type V = TxDataV;

    open spec fn view(&self) -> TxDataV {
        TxDataV {
            hash: self.hash@,
            has_aux: self.has_aux,
            metadata_labels: self.metadata_labels@,
            metadata_json: self.metadata_json@,
            inputs_json: self.inputs_json@,
            outputs_json: self.outputs_json@,
        }
    }
}

/// A decoded, era-tagged block: what the executor and the extraction tasks
/// read of a raw payload once the decoder has done its work. The fallback
/// decode path yields a block with no transactions, no invalid indices and
/// an empty auxiliary-data set.
pub struct DecodedBlock {
    pub era: EraValue,
    pub txs: Vec<TxData>,
    pub invalid_transactions: Vec<u64>,
    pub aux_empty: bool,
}

/// Specification-level value of a `DecodedBlock`.
pub struct DecodedBlockV {
    pub era: EraValue,
    pub txs: Seq<TxDataV>,
    pub invalid_transactions: Seq<u64>,
    pub aux_empty: bool,
}

impl View for DecodedBlock {
    type V = DecodedBlockV;

    open spec fn view(&self) -> DecodedBlockV {
        DecodedBlockV {
            era: self.era,
            txs: self.txs@.map_values(|t: TxData| t@),
            invalid_transactions: self.invalid_transactions@,
            aux_empty: self.aux_empty,
        }
    }
}

/// The header-only block view the fallback decode path yields for `era`:
/// no transactions, no invalid indices, an empty auxiliary-data set.
pub open spec fn spec_header_only(era: EraValue) -> DecodedBlockV {
    DecodedBlockV {
        era,
        txs: Seq::empty(),
        invalid_transactions: Seq::empty(),
        aux_empty: true,
    }
}

impl DecodedBlock {
    /// Whether the block carries no transactions.
    pub open spec fn spec_is_empty(self) -> bool {
        self@.txs.len() == 0
    }

    /// Whether the block carries no transactions.
    pub fn is_empty(&self) -> (r: bool)
        ensures
            r == self.spec_is_empty(),
    {
        self.txs.len() == 0
    }

    /// The header-only block the fallback decode path yields for `era`.
    pub fn header_only(era: EraValue) -> (r: DecodedBlock)
        ensures
            r@ == spec_header_only(era),
    {
        let r = DecodedBlock {
            era,
            txs: Vec::new(),
            invalid_transactions: Vec::new(),
            aux_empty: true,
        };
        proof {
            assert(r@.txs =~= Seq::<TxDataV>::empty());
            assert(r@.invalid_transactions =~= Seq::<u64>::empty());
        }
        r
    }
}

/// Era, epoch and epoch slot of the block being processed, derived once per
/// block and passed read-only to every task.
#[derive(Clone, Copy, Debug)]
pub struct BlockGlobalInfo {
    pub era: EraValue,
    pub epoch: Option<u64>,
    pub epoch_slot: Option<u64>,
}

} // verus!
