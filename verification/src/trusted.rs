use vstd::prelude::*;
use cml_core::serialization::Deserialize;
use cml_chain::auxdata::AuxiliaryData;
use cml_multi_era::{MultiEraBlock, MultiEraTransactionBody};
use crate::block::{DecodedBlock, DecodedBlockV, TxData};
use crate::cbor::spec_era_tag;
use crate::era::{EraValue, spec_era_from_tag};

verus! {

#[verifier::external_type_specification]
#[verifier::external_body]
pub struct ExMultiEraBlock(MultiEraBlock);

#[verifier::external_type_specification]
#[verifier::external_body]
pub struct ExMultiEraTransactionBody(MultiEraTransactionBody);

#[verifier::external_type_specification]
#[verifier::external_body]
pub struct ExAuxiliaryData(AuxiliaryData);

#[verifier::external_type_specification]
#[verifier::external_body]
pub struct ExInstant(std::time::Instant);

/// What the standard multi-era block decoder yields on the raw bytes:
/// the plain model of the decoded block, or the rendered error. A
/// function of the bytes alone.
pub uninterp spec fn standard_decode(s: Seq<u8>) -> Result<DecodedBlockV, Seq<char>>;

/// The rendered error of the standard decoder, `None` where it accepts
/// the bytes.
pub open spec fn standard_outcome(s: Seq<u8>) -> Option<Seq<char>> {
    match standard_decode(s) {
        Ok(_) => None,
        Err(m) => Some(m),
    }
}

/// What the block-header decoder answers on the bytes that follow the
/// block array head: `None` when a header parses there, the rendered
/// error otherwise. A function of the bytes alone.
pub uninterp spec fn header_outcome(s: Seq<u8>) -> Option<Seq<char>>;

/// Relies on `cml_multi_era::MultiEraBlock::from_explicit_network_cbor_bytes`.
/// On success the input opened with a two-element (or indefinite) array
/// head and an unsigned-integer era tag of at most 7: its source reads
/// exactly that prefix through cbor_event and dispatches on the tag,
/// refusing any other tag, with tags 0 and 1 both yielding the Byron
/// variant and 2 through 7 the later eras in order — so the model's era
/// is the era the tag denotes.
#[verifier::external_body]
pub fn decode_standard(bytes: &Vec<u8>) -> (r: Result<DecodedBlock, String>)
    ensures
        r is Ok <==> standard_decode(bytes@) is Ok,
        r is Ok ==> r->Ok_0@ == standard_decode(bytes@)->Ok_0,
        r is Err ==> r->Err_0@ == standard_decode(bytes@)->Err_0,
        r is Ok ==> spec_era_tag(bytes@) is Some && spec_era_tag(bytes@)->Some_0.0 <= 7 && Some(
            standard_decode(bytes@)->Ok_0.era,
        ) == spec_era_from_tag(spec_era_tag(bytes@)->Some_0.0),
{
    match MultiEraBlock::from_explicit_network_cbor_bytes(bytes.as_slice()) {
        Ok(b) => {
            let era = to_era_value(&b);
            Ok(model_of_block(&b, era))
        },
        Err(e) => Err(e.to_string()),
    }
}

/// Relies on the `MultiEraBlock` variants: the era a decoded block
/// belongs to, one arm per variant.
#[verifier::external_body]
fn to_era_value(b: &MultiEraBlock) -> (r: EraValue)
{
    match b {
        MultiEraBlock::Byron(_) => EraValue::Byron,
        MultiEraBlock::Shelley(_) => EraValue::Shelley,
        MultiEraBlock::Allegra(_) => EraValue::Allegra,
        MultiEraBlock::Mary(_) => EraValue::Mary,
        MultiEraBlock::Alonzo(_) => EraValue::Alonzo,
        MultiEraBlock::Babbage(_) => EraValue::Babbage,
        MultiEraBlock::Conway(_) => EraValue::Conway,
    }
}

/// Relies on `MultiEraBlock::transaction_bodies`, `auxiliary_data_set` and
/// `invalid_transactions`: converts a decoded block to the plain model the
/// tasks read, one entry per transaction body, paired with the
/// auxiliary-data entry of its index.
#[verifier::external_body]
fn model_of_block(b: &MultiEraBlock, era: EraValue) -> (r: DecodedBlock)
{
    let aux = b.auxiliary_data_set();
    let txs = b.transaction_bodies().iter().enumerate().map(|(i, tx)| {
        model_of_tx(tx, aux.get(&(i as u16)))
    }).collect();
    DecodedBlock {
        era,
        txs,
        invalid_transactions: b.invalid_transactions().iter().map(|i| *i as u64).collect(),
        aux_empty: aux.is_empty(),
    }
}

/// Relies on the three `AuxiliaryData` era variants and on serde_json:
/// reads the metadata entries of whichever era variant is present and
/// yields their labels and their rendering.
#[verifier::external_body]
fn aux_model(aux: Option<&AuxiliaryData>) -> (r: (Vec<u64>, String))
{
    let entries = aux.and_then(|a| match a {
        AuxiliaryData::Conway(d) => d.metadata.as_ref().map(|m| &m.entries),
        AuxiliaryData::Shelley(d) => Some(&d.entries),
        AuxiliaryData::ShelleyMA(d) => Some(&d.transaction_metadata.entries),
    });
    (
        entries.map(|es| es.iter().map(|(l, _)| *l).collect()).unwrap_or_default(),
        entries.and_then(|es| serde_json::to_string(es).ok()).unwrap_or(String::from("null")),
    )
}

/// Relies on `MultiEraTransactionBody::hash`, `inputs` and `outputs`, and
/// on serde_json: converts one transaction body and its auxiliary-data
/// entry to the plain model.
#[verifier::external_body]
fn model_of_tx(tx: &MultiEraTransactionBody, aux: Option<&AuxiliaryData>) -> (r: TxData)
{
    let (metadata_labels, metadata_json) = aux_model(aux);
    TxData {
        hash: tx.hash().to_hex(),
        has_aux: aux.is_some(),
        metadata_labels,
        metadata_json,
        inputs_json: serde_json::to_string(&tx.inputs()).unwrap_or(String::from("null")),
        outputs_json: serde_json::to_string(&tx.outputs()).unwrap_or(String::from("null")),
    }
}

/// Relies on `cml_chain::block::Header::deserialize` over a
/// `cbor_event::de::Deserializer`: whether a block header parses in the
/// bytes from `start` on.
#[verifier::external_body]
pub fn parse_header_at(bytes: &Vec<u8>, start: usize) -> (r: Result<(), String>)
    requires
        start <= bytes@.len(),
    ensures
        r is Ok <==> header_outcome(bytes@.skip(start as int)) is None,
        r is Err ==> r->Err_0@ == header_outcome(bytes@.skip(start as int))->Some_0,
{
    let mut raw = cbor_event::de::Deserializer::from(std::io::Cursor::new(&bytes[start..]));
    cml_chain::block::Header::deserialize(&mut raw).map(|_| ()).map_err(|e| e.to_string())
}

/// Relies on `std::time::Instant::now`.
#[verifier::external_body]
pub fn instant_now() -> (t: std::time::Instant) {
    std::time::Instant::now()
}

/// Relies on `std::time::Instant::elapsed`.
#[verifier::external_body]
pub fn instant_elapsed(t: &std::time::Instant) -> (d: std::time::Duration) {
    t.elapsed()
}

/// Relies on `std::time::Duration::as_nanos`, capped at the largest
/// 64-bit value.
#[verifier::external_body]
pub fn duration_nanos(d: &std::time::Duration) -> (n: u64) {
    u64::try_from(d.as_nanos()).unwrap_or(u64::MAX)
}

} // verus!
