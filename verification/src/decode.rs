use vstd::prelude::*;
use crate::block::{DecodedBlock, DecodedBlockV, spec_header_only};
use crate::cbor::{read_block_body_start, read_era_tag, spec_block_body_start, spec_era_tag};
use crate::era::{CONWAY_ERA_TAG, EraValue, spec_era_from_tag};
use crate::trusted::{decode_standard, header_outcome, parse_header_at, standard_decode, standard_outcome};

verus! {

/// Whether `needle` occurs contiguously in `hay`.
pub open spec fn spec_contains_sub(hay: Seq<char>, needle: Seq<char>) -> bool {
    exists|i: int|
        0 <= i && i + needle.len() <= hay.len() && #[trigger] hay.subrange(i, i + needle.len())
            =~= needle
}

/// Whether `needle` occurs in `hay` starting at `i`.
fn matches_at(hay: &str, needle: &str, i: usize) -> (r: bool)
    requires
        i + needle@.len() <= hay@.len(),
    ensures
        r == (hay@.subrange(i as int, i + needle@.len()) =~= needle@),
{
    let n = hay.unicode_len();
    let m = needle.unicode_len();
    let mut j: usize = 0;
    while j < m
        invariant
            n == hay@.len(),
            m == needle@.len(),
            i + m <= n,
            j <= m,
            forall|q: int| 0 <= q < j ==> hay@[i + q] == needle@[q],
        decreases m - j,
    {
        if hay.get_char(i + j) != needle.get_char(j) {
            proof {
                assert(hay@.subrange(i as int, i + needle@.len())[j as int] != needle@[j as int]);
            }
            return false;
        }
        j = j + 1;
    }
    proof {
        assert(hay@.subrange(i as int, i + needle@.len()) =~= needle@);
    }
    true
}

/// Whether `needle` occurs contiguously in `hay`.
pub fn contains_sub(hay: &str, needle: &str) -> (r: bool)
    ensures
        r == spec_contains_sub(hay@, needle@),
{
    let n = hay.unicode_len();
    let m = needle.unicode_len();
    if m > n {
        return false;
    }
    let mut i: usize = 0;
    while i <= n - m
        invariant
            n == hay@.len(),
            m == needle@.len(),
            m <= n,
            i <= n - m + 1,
            forall|q: int|
                0 <= q < i ==> !(#[trigger] hay@.subrange(q, q + needle@.len()) =~= needle@),
        decreases n - m + 1 - i,
    {
        if matches_at(hay, needle, i) {
            return true;
        }
        i = i + 1;
    }
    false
}

/// The recognized recoverable failure class of the standard decoder: a
/// duplicate key inside a map type it does not support, the structural
/// ambiguity of one era's auxiliary-data encoding.
pub open spec fn spec_recoverable(msg: Seq<char>) -> bool {
    spec_contains_sub(msg, "Duplicate key"@) && spec_contains_sub(
        msg,
        "some complicated/unsupported type"@,
    )
}

/// Whether a rendered decode error belongs to the recognized recoverable
/// class.
pub fn is_recoverable_decode_error(msg: &String) -> (r: bool)
    ensures
        r == spec_recoverable(msg@),
{
    contains_sub(msg.as_str(), "Duplicate key") && contains_sub(
        msg.as_str(),
        "some complicated/unsupported type",
    )
}

/// Whether the fallback path accepts `s`: an era-tagged prefix carrying
/// the Conway tag, a five-element block array head, and a parseable
/// header after it.
pub open spec fn spec_fallback_ok(s: Seq<u8>) -> bool {
    &&& spec_era_tag(s) is Some
    &&& spec_era_tag(s)->Some_0.0 == CONWAY_ERA_TAG
    &&& spec_block_body_start(s, spec_era_tag(s)->Some_0.1) is Some
    &&& header_outcome(s.skip(spec_block_body_start(s, spec_era_tag(s)->Some_0.1)->Some_0)) is None
}

/// Whether `decode_block` accepts `s`: the standard decoder accepts it,
/// or fails with the recognized recoverable error and the fallback
/// accepts it.
pub open spec fn spec_decode_ok(s: Seq<u8>) -> bool {
    match standard_outcome(s) {
        None => true,
        Some(msg) => spec_recoverable(msg) && spec_fallback_ok(s),
    }
}

/// Why a raw block could not be decoded.
#[derive(Debug)]
pub enum DecodeError {
    /// The standard decoder failed outside the recognized recoverable
    /// class; carries its rendered error.
    Unrecognized(String),
    /// The fallback path found no era-tagged block array prefix.
    FallbackPrefix,
    /// The fallback path found an era tag other than the one it knows how
    /// to recover.
    FallbackWrongEra(u64),
    /// The fallback path could not parse the block header; carries the
    /// rendered error.
    FallbackHeader(String),
}

/// Which decoder produced a block.
#[derive(Clone, Copy, Debug, PartialEq, Eq, Structural)]
pub enum DecodePath {
    /// The standard multi-era decoder.
    Standard,
    /// The header-only fallback decoder.
    Fallback,
}

/// Parses a raw block whose standard decode failed with the recognized
/// duplicate-key error: confirms the era-tagged prefix, accepts only the
/// Conway era tag, confirms that the block header parses, and yields a
/// header-only block — empty transaction, witness and auxiliary-data
/// collections — usable for header-level bookkeeping.
pub fn parse_problematic_conway_block(bytes: &Vec<u8>) -> (r: Result<DecodedBlock, DecodeError>)
    ensures
        r is Ok <==> (spec_era_tag(bytes@) is Some && spec_era_tag(bytes@)->Some_0.0
            == CONWAY_ERA_TAG && spec_block_body_start(
            bytes@,
            spec_era_tag(bytes@)->Some_0.1,
        ) is Some && header_outcome(
            bytes@.skip(spec_block_body_start(bytes@, spec_era_tag(bytes@)->Some_0.1)->Some_0),
        ) is None),
        r is Ok ==> {
            let b = r->Ok_0;
            &&& b@.era == EraValue::Conway
            &&& b@.txs.len() == 0
            &&& b@.invalid_transactions.len() == 0
            &&& b@.aux_empty
        },
        spec_era_tag(bytes@) is None ==> r matches Err(DecodeError::FallbackPrefix),
        (spec_era_tag(bytes@) is Some && spec_era_tag(bytes@)->Some_0.0 != CONWAY_ERA_TAG)
            ==> (r matches Err(DecodeError::FallbackWrongEra(e)) && e == spec_era_tag(
            bytes@,
        )->Some_0.0),
        (spec_era_tag(bytes@) is Some && spec_era_tag(bytes@)->Some_0.0 == CONWAY_ERA_TAG
            && spec_block_body_start(bytes@, spec_era_tag(bytes@)->Some_0.1) is None) ==> (
        r matches Err(DecodeError::FallbackPrefix)),
        (spec_era_tag(bytes@) is Some && spec_era_tag(bytes@)->Some_0.0 == CONWAY_ERA_TAG
            && spec_block_body_start(bytes@, spec_era_tag(bytes@)->Some_0.1) is Some
            && header_outcome(
            bytes@.skip(spec_block_body_start(bytes@, spec_era_tag(bytes@)->Some_0.1)->Some_0),
        ) is Some) ==> ((r matches Err(DecodeError::FallbackHeader(m))) && (r matches Err(
            DecodeError::FallbackHeader(m2),
        ) ==> m2@ == header_outcome(
            bytes@.skip(spec_block_body_start(bytes@, spec_era_tag(bytes@)->Some_0.1)->Some_0),
        )->Some_0)),
        r is Ok ==> r->Ok_0@ == spec_header_only(EraValue::Conway),
{
    let (era, next) = match read_era_tag(bytes) {
        Ok(p) => p,
        Err(_) => {
            return Err(DecodeError::FallbackPrefix);
        },
    };
    if era != CONWAY_ERA_TAG {
        return Err(DecodeError::FallbackWrongEra(era));
    }
    let body_start = match read_block_body_start(bytes, next) {
        Ok(p) => p,
        Err(_) => {
            return Err(DecodeError::FallbackPrefix);
        },
    };
    match parse_header_at(bytes, body_start) {
        Ok(()) => Ok(DecodedBlock::header_only(EraValue::Conway)),
        Err(e) => Err(DecodeError::FallbackHeader(e)),
    }
}

/// The block model decoding yields on `s`, when it accepts the bytes:
/// the standard decoder's model, or, on the recognized recoverable
/// failure, the header-only Conway block.
pub open spec fn spec_decoded_model(s: Seq<u8>) -> DecodedBlockV {
    match standard_decode(s) {
        Ok(m) => m,
        Err(_) => spec_header_only(EraValue::Conway),
    }
}

/// Decodes a raw block. The standard multi-era decoder runs first; when
/// it fails with the recognized duplicate-key error the header-only
/// fallback runs instead, and any other failure is surfaced unchanged.
/// On success, by either path, the output is `spec_decoded_model` of the
/// bytes, and its era is the era denoted by the tag encoded in the
/// input's explicit-network prefix.
pub fn decode_block(bytes: &Vec<u8>) -> (r: Result<(DecodedBlock, DecodePath), DecodeError>)
    ensures
        r is Ok <==> spec_decode_ok(bytes@),
        r is Ok ==> r->Ok_0.0@ == spec_decoded_model(bytes@),
        standard_outcome(bytes@) is None ==> r is Ok && r->Ok_0.1 == DecodePath::Standard,
        r is Ok ==> (r->Ok_0.1 == DecodePath::Standard <==> standard_outcome(bytes@) is None),
        (standard_outcome(bytes@) matches Some(msg) && !spec_recoverable(msg)) ==> ((r matches Err(
            DecodeError::Unrecognized(m),
        )) && (r matches Err(DecodeError::Unrecognized(m2)) ==> m2@ == standard_outcome(
            bytes@,
        )->Some_0)),
        r is Ok ==> spec_era_tag(bytes@) is Some && Some(r->Ok_0.0@.era) == spec_era_from_tag(
            spec_era_tag(bytes@)->Some_0.0,
        ),
        (standard_outcome(bytes@) matches Some(msg) && spec_recoverable(msg)) ==> ({
            let fb = (spec_era_tag(bytes@) is Some && spec_era_tag(bytes@)->Some_0.0
                == CONWAY_ERA_TAG && spec_block_body_start(
                bytes@,
                spec_era_tag(bytes@)->Some_0.1,
            ) is Some && header_outcome(
                bytes@.skip(
                    spec_block_body_start(bytes@, spec_era_tag(bytes@)->Some_0.1)->Some_0,
                ),
            ) is None);
            &&& (r is Ok <==> fb)
            &&& (r is Ok ==> r->Ok_0.1 == DecodePath::Fallback && r->Ok_0.0@.txs.len() == 0)
        }),
{
    match decode_standard(bytes) {
        Ok(model) => Ok((model, DecodePath::Standard)),
        Err(msg) => {
            if is_recoverable_decode_error(&msg) {
                match parse_problematic_conway_block(bytes) {
                    Ok(block) => {
                        proof {
                            assert(spec_era_from_tag(CONWAY_ERA_TAG) == Some(EraValue::Conway));
                        }
                        Ok((block, DecodePath::Fallback))
                    },
                    Err(e) => Err(e),
                }
            } else {
                Err(DecodeError::Unrecognized(msg))
            }
        },
    }
}

} // verus!
