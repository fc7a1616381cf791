use vstd::prelude::*;

verus! {

// A CBOR data item starts with a head: an initial byte whose top three bits
// give the major type and whose low five bits give the additional
// information. Additional information 0 through 23 is an immediate value;
// 24, 25, 26 and 27 announce a big-endian value in the following 1, 2, 4 or
// 8 bytes; 31 marks an indefinite length; 28 through 30 are malformed.

/// The big-endian value of `n` bytes of `s` starting at `pos`, for the
/// argument counts a CBOR head can carry (1, 2, 4 or 8).
pub open spec fn spec_be_val(s: Seq<u8>, pos: int, n: int) -> int {
    if n == 1 {
        s[pos] as int
    } else if n == 2 {
        s[pos] * 256 + s[pos + 1]
    } else if n == 4 {
        s[pos] * 16777216 + s[pos + 1] * 65536 + s[pos + 2] * 256 + s[pos + 3]
    } else {
        s[pos] * 72057594037927936 + s[pos + 1] * 281474976710656 + s[pos + 2] * 1099511627776
            + s[pos + 3] * 4294967296 + s[pos + 4] * 16777216 + s[pos + 5] * 65536
            + s[pos + 6] * 256 + s[pos + 7]
    }
}

/// A decoded CBOR head, at the specification level.
pub struct CborHeadS {
    pub major: u8,
    pub indefinite: bool,
    pub value: u64,
    pub next: int,
}

/// The head of the CBOR item starting at `pos` in `s`: its major type, its
/// length-or-value argument, and the position just after the head. `None`
/// when the bytes end too early or the additional information is one of the
/// malformed values 28 through 30.
pub open spec fn spec_head(s: Seq<u8>, pos: int) -> Option<CborHeadS> {
    if pos < 0 || pos >= s.len() {
        None
    } else {
        let b = s[pos];
        let major = b / 32;
        let info = b % 32;
        if info <= 23 {
            Some(CborHeadS { major, indefinite: false, value: info as u64, next: pos + 1 })
        } else if info == 31 {
            Some(CborHeadS { major, indefinite: true, value: 0, next: pos + 1 })
        } else if info == 24 || info == 25 || info == 26 || info == 27 {
            let n = if info == 24 { 1int } else if info == 25 { 2int } else if info == 26 { 4int } else { 8int };
            if pos + 1 + n <= s.len() {
                Some(CborHeadS {
                    major,
                    indefinite: false,
                    value: spec_be_val(s, pos + 1, n) as u64,
                    next: pos + 1 + n,
                })
            } else {
                None
            }
        } else {
            None
        }
    }
}

/// A decoded CBOR head.
pub struct CborHead {
    pub major: u8,
    pub indefinite: bool,
    pub value: u64,
    pub next: usize,
}

/// Raised when the bytes at hand do not carry the CBOR structure asked for.
#[derive(Clone, Copy, Debug, PartialEq, Eq, Structural)]
pub struct CborError {}

/// Reads the big-endian value of `n` bytes starting at `pos`; `n` is 1, 2,
/// 4 or 8.
fn read_be_val(s: &Vec<u8>, pos: usize, n: usize) -> (r: u64)
    requires
        n == 1 || n == 2 || n == 4 || n == 8,
        pos + n <= s@.len(),
        s@.len() <= usize::MAX,
    ensures
        r == spec_be_val(s@, pos as int, n as int),
{
    broadcast use vstd::std_specs::vec::axiom_spec_len;

    if n == 1 {
        s[pos] as u64
    } else if n == 2 {
        (s[pos] as u64) * 256 + (s[pos + 1] as u64)
    } else if n == 4 {
        (s[pos] as u64) * 16777216 + (s[pos + 1] as u64) * 65536 + (s[pos + 2] as u64) * 256 + (s[
            pos + 3] as u64)
    } else {
        (s[pos] as u64) * 72057594037927936 + (s[pos + 1] as u64) * 281474976710656 + (s[pos
            + 2] as u64) * 1099511627776 + (s[pos + 3] as u64) * 4294967296 + (s[pos
            + 4] as u64) * 16777216 + (s[pos + 5] as u64) * 65536 + (s[pos + 6] as u64) * 256 + (
        s[pos + 7] as u64)
    }
}

/// Reads the CBOR head starting at `pos`. Fails exactly where
/// `spec_head` is `None`.
pub fn read_head(s: &Vec<u8>, pos: usize) -> (r: Result<CborHead, CborError>)
    ensures
        r is Ok <==> spec_head(s@, pos as int) is Some,
        r is Ok ==> {
            let h = spec_head(s@, pos as int)->Some_0;
            &&& r->Ok_0.major == h.major
            &&& r->Ok_0.indefinite == h.indefinite
            &&& r->Ok_0.value == h.value
            &&& r->Ok_0.next == h.next
        },
{
    if pos >= s.len() {
        return Err(CborError {});
    }
    let b = s[pos];
    let major = b / 32;
    let info = b % 32;
    if info <= 23 {
        Ok(CborHead { major, indefinite: false, value: info as u64, next: pos + 1 })
    } else if info == 31 {
        Ok(CborHead { major, indefinite: true, value: 0, next: pos + 1 })
    } else if info == 24 || info == 25 || info == 26 || info == 27 {
        let n: usize = if info == 24 { 1 } else if info == 25 { 2 } else if info == 26 { 4 } else { 8 };
        if s.len() - pos > n {
            let v = read_be_val(s, pos + 1, n);
            Ok(CborHead { major, indefinite: false, value: v, next: pos + 1 + n })
        } else {
            Err(CborError {})
        }
    } else {
        Err(CborError {})
    }
}

/// The era tag of a raw block in the explicit-network wire format, and the
/// position just after it. The format opens with a two-element array (or an
/// indefinite one) whose first element is an unsigned integer: the era tag.
/// `None` when the bytes do not open that way.
pub open spec fn spec_era_tag(s: Seq<u8>) -> Option<(u64, int)> {
    match spec_head(s, 0) {
        None => None,
        Some(h0) => {
            if h0.major != 4 || (!h0.indefinite && h0.value != 2) {
                None
            } else {
                match spec_head(s, h0.next) {
                    None => None,
                    Some(h1) => {
                        if h1.major != 0 || h1.indefinite {
                            None
                        } else {
                            Some((h1.value, h1.next))
                        }
                    },
                }
            }
        },
    }
}

/// Reads the era tag of a raw block in the explicit-network wire format.
/// Fails exactly where `spec_era_tag` is `None`.
pub fn read_era_tag(s: &Vec<u8>) -> (r: Result<(u64, usize), CborError>)
    ensures
        r is Ok <==> spec_era_tag(s@) is Some,
        r is Ok ==> {
            let (era, next) = spec_era_tag(s@)->Some_0;
            r->Ok_0.0 == era && r->Ok_0.1 == next
        },
{
    let h0 = match read_head(s, 0) {
        Ok(h) => h,
        Err(e) => {
            return Err(e);
        },
    };
    if h0.major != 4 || (!h0.indefinite && h0.value != 2) {
        return Err(CborError {});
    }
    let h1 = match read_head(s, h0.next) {
        Ok(h) => h,
        Err(e) => {
            return Err(e);
        },
    };
    if h1.major != 0 || h1.indefinite {
        return Err(CborError {});
    }
    Ok((h1.value, h1.next))
}

/// The position just after the five-element block array head that follows
/// the era tag at `pos`: the block body of the Conway era is a five-element
/// array (header, transaction bodies, witness sets, auxiliary data,
/// invalid-transaction indices), and the fallback path reads only this head
/// before handing the rest to the header decoder. `None` when no array head
/// with five elements (or an indefinite one) stands at `pos`.
pub open spec fn spec_block_body_start(s: Seq<u8>, pos: int) -> Option<int> {
    match spec_head(s, pos) {
        None => None,
        Some(h) => {
            if h.major != 4 || (!h.indefinite && h.value != 5) {
                None
            } else {
                Some(h.next)
            }
        },
    }
}

/// Reads past the five-element block array head at `pos`. Fails exactly
/// where `spec_block_body_start` is `None`.
pub fn read_block_body_start(s: &Vec<u8>, pos: usize) -> (r: Result<usize, CborError>)
    ensures
        r is Ok <==> spec_block_body_start(s@, pos as int) is Some,
        r is Ok ==> r->Ok_0 == spec_block_body_start(s@, pos as int)->Some_0,
{
    let h = match read_head(s, pos) {
        Ok(h) => h,
        Err(e) => {
            return Err(e);
        },
    };
    if h.major != 4 || (!h.indefinite && h.value != 5) {
        return Err(CborError {});
    }
    Ok(h.next)
}

} // verus!
