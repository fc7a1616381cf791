use vstd::prelude::*;

verus! {

/// A protocol era of the chain. Each era has its own block encoding rules;
/// the network wire format tags every raw block with the era it belongs to.
#[derive(Clone, Copy, Debug, PartialEq, Eq, Structural)]
pub enum EraValue {
    Byron,
    Shelley,
    Allegra,
    Mary,
    Alonzo,
    Babbage,
    Conway,
}

/// The era denoted by a wire-format era tag. Tags 0 and 1 are the two
/// Byron block flavours (epoch boundary and main); 2 through 7 are the
/// later eras in order. Any other tag is not a known era.
pub open spec fn spec_era_from_tag(tag: u64) -> Option<EraValue> {
    if tag == 0 || tag == 1 {
        Some(EraValue::Byron)
    } else if tag == 2 {
        Some(EraValue::Shelley)
    } else if tag == 3 {
        Some(EraValue::Allegra)
    } else if tag == 4 {
        Some(EraValue::Mary)
    } else if tag == 5 {
        Some(EraValue::Alonzo)
    } else if tag == 6 {
        Some(EraValue::Babbage)
    } else if tag == 7 {
        Some(EraValue::Conway)
    } else {
        None
    }
}

/// Maps a wire-format era tag to the era it denotes.
pub fn era_from_tag(tag: u64) -> (r: Option<EraValue>)
    ensures
        r == spec_era_from_tag(tag),
{
    if tag == 0 || tag == 1 {
        Some(EraValue::Byron)
    } else if tag == 2 {
        Some(EraValue::Shelley)
    } else if tag == 3 {
        Some(EraValue::Allegra)
    } else if tag == 4 {
        Some(EraValue::Mary)
    } else if tag == 5 {
        Some(EraValue::Alonzo)
    } else if tag == 6 {
        Some(EraValue::Babbage)
    } else if tag == 7 {
        Some(EraValue::Conway)
    } else {
        None
    }
}

/// The wire tag of the Conway era, whose auxiliary-data encoding has the
/// structural ambiguity that the fallback decoder recognizes.
pub const CONWAY_ERA_TAG: u64 = 7;

} // verus!
