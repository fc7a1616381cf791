use vstd::prelude::*;

verus! {

/// Whether `c` is a hexadecimal digit (either case accepted).
pub open spec fn spec_is_hex_digit(c: char) -> bool {
    ('0' <= c && c <= '9') || ('a' <= c && c <= 'f') || ('A' <= c && c <= 'F')
}

/// The numeric value of a hexadecimal digit; meaningful only when
/// `spec_is_hex_digit(c)` holds.
pub open spec fn spec_hex_val(c: char) -> int {
    if '0' <= c && c <= '9' {
        c as int - '0' as int
    } else if 'a' <= c && c <= 'f' {
        c as int - 'a' as int + 10
    } else {
        c as int - 'A' as int + 10
    }
}

/// Whether `s` is a well-formed hexadecimal string: an even number of
/// characters, all of them hexadecimal digits.
pub open spec fn spec_is_hex_str(s: Seq<char>) -> bool {
    &&& s.len() % 2 == 0
    &&& forall|i: int| 0 <= i < s.len() ==> spec_is_hex_digit(#[trigger] s[i])
}

/// The byte sequence a well-formed hexadecimal string denotes: each pair of
/// digits yields one byte, high digit first.
pub open spec fn spec_hex_bytes(s: Seq<char>) -> Seq<u8> {
    Seq::new((s.len() / 2) as nat, |i: int| (spec_hex_val(s[2 * i]) * 16 + spec_hex_val(s[2 * i + 1])) as u8)
}

/// Raised when a string that should carry hexadecimal data is malformed.
#[derive(Clone, Copy, Debug, PartialEq, Eq, Structural)]
pub struct HexError {}

/// The numeric value of one hexadecimal digit character, or `None` if the
/// character is not a hexadecimal digit.
fn hex_val_of_char(c: char) -> (r: Option<u8>)
    ensures
        r == (if spec_is_hex_digit(c) { Some(spec_hex_val(c) as u8) } else { None::<u8> }),
{
    if c >= '0' && c <= '9' {
        Some(c as u8 - 48)
    } else if c >= 'a' && c <= 'f' {
        Some(c as u8 - 97 + 10)
    } else if c >= 'A' && c <= 'F' {
        Some(c as u8 - 65 + 10)
    } else {
        None
    }
}

/// Decodes a hexadecimal string into the bytes it denotes. Returns an error
/// exactly on malformed input: a string of odd length, or one holding any
/// character that is not a hexadecimal digit.
pub fn decode_hex(s: &str) -> (r: Result<Vec<u8>, HexError>)
    ensures
        r is Ok <==> spec_is_hex_str(s@),
        r is Ok ==> r->Ok_0@ == spec_hex_bytes(s@),
{
    let n = s.unicode_len();
    if n % 2 != 0 {
        return Err(HexError {});
    }
    let mut out: Vec<u8> = Vec::new();
    let mut i: usize = 0;
    while i < n
        invariant
            n == s@.len(),
            n % 2 == 0,
            i % 2 == 0,
            i <= n,
            forall|j: int| 0 <= j < i ==> spec_is_hex_digit(#[trigger] s@[j]),
            out@.len() == i / 2,
            forall|j: int| 0 <= j < i / 2 ==> out@[j] == (spec_hex_val(s@[2 * j]) * 16 + spec_hex_val(s@[2 * j + 1])) as u8,
        decreases n - i,
    {
        let hi = s.get_char(i);
        let lo = s.get_char(i + 1);
        let hv = match hex_val_of_char(hi) {
            Some(v) => v,
            None => {
                return Err(HexError {});
            },
        };
        let lv = match hex_val_of_char(lo) {
            Some(v) => v,
            None => {
                return Err(HexError {});
            },
        };
        out.push(hv * 16 + lv);
        i = i + 2;
    }
    assert(out@ =~= spec_hex_bytes(s@));
    Ok(out)
}

} // verus!
