//! Byte-level scanners for textual reference data: a fixed-width
//! lowercase-hex object id, and a line terminator.

use vstd::prelude::*;

verus! {

/// A lowercase hexadecimal digit.
pub open spec fn is_hex_digit_lc_spec(b: u8) -> bool {
    (0x30 <= b && b <= 0x39) || (0x61 <= b && b <= 0x66)
}

fn is_hex_digit_lc(b: u8) -> (r: bool)
    ensures
        r == is_hex_digit_lc_spec(b),
{
    (0x30 <= b && b <= 0x39) || (0x61 <= b && b <= 0x66)
}

/// Number of hex digits in an object id of the supported hash kind.
pub const HEX_LEN: usize = 40;

/// Takes a full-width lowercase-hex object id from the front of `i`:
/// the digits and the remaining input, or nothing when fewer than
/// `HEX_LEN` hex digits lead the input. Ids of the wrong kind are
/// rejected at a later stage, not here.
pub fn hex_hash<'a>(i: &'a [u8]) -> (r: Option<(&'a [u8], &'a [u8])>)
    ensures
        match r {
            Some((rest, hex)) => {
                &&& i@.len() >= HEX_LEN
                &&& forall|k: int| 0 <= k < HEX_LEN ==> is_hex_digit_lc_spec(i@[k])
                &&& hex@ == i@.subrange(0, HEX_LEN as int)
                &&& rest@ == i@.skip(HEX_LEN as int)
            },
            None => i@.len() < HEX_LEN || exists|k: int|
                0 <= k < HEX_LEN && !is_hex_digit_lc_spec(i@[k]),
        },
{
    if i.len() < 40 {
        return None;
    }
    let mut k: usize = 0;
    while k < 40
        invariant
            k <= 40,
            i@.len() >= 40,
            forall|m: int| 0 <= m < k ==> is_hex_digit_lc_spec(i@[m]),
        decreases 40 - k,
    {
        if !is_hex_digit_lc(i[k]) {
            return None;
        }
        k += 1;
    }
    let hex = &i[0..40];
    let rest = &i[40..i.len()];
    proof {
        assert(rest@ =~= i@.skip(40));
    }
    Some((rest, hex))
}

/// The length of the line terminator leading `s`: a two-byte carriage
/// return + line feed, a lone line feed, or none.
pub open spec fn newline_len(s: Seq<u8>) -> int {
    if s.len() >= 2 && s[0] == 0x0d && s[1] == 0x0a {
        2
    } else if s.len() >= 1 && s[0] == 0x0a {
        1
    } else {
        0
    }
}

/// Takes a line terminator from the front of `i`, preferring the
/// two-byte form: the terminator and the remaining input.
pub fn newline<'a>(i: &'a [u8]) -> (r: Option<(&'a [u8], &'a [u8])>)
    ensures
        r is Some <==> newline_len(i@) > 0,
        r matches Some((rest, nl)) ==> nl@ == i@.subrange(0, newline_len(i@)) && rest@ == i@.skip(
            newline_len(i@),
        ),
{
    if i.len() >= 2 && i[0] == 0x0d && i[1] == 0x0a {
        let nl = &i[0..2];
        let rest = &i[2..i.len()];
        proof {
            assert(rest@ =~= i@.skip(2));
        }
        Some((rest, nl))
    } else if i.len() >= 1 && i[0] == 0x0a {
        let nl = &i[0..1];
        let rest = &i[1..i.len()];
        proof {
            assert(rest@ =~= i@.skip(1));
        }
        Some((rest, nl))
    } else {
        None
    }
}

} // verus!
