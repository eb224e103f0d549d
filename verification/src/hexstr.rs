use vstd::prelude::*;

verus! {

/// The numeric value of one hexadecimal digit, either case.
pub open spec fn hex_digit_value(c: char) -> Option<u8> {
    if ('0' as u32) <= (c as u32) && (c as u32) <= ('9' as u32) {
        Some(((c as u32) - ('0' as u32)) as u8)
    } else if ('a' as u32) <= (c as u32) && (c as u32) <= ('f' as u32) {
        Some(((c as u32) - ('a' as u32) + 10) as u8)
    } else if ('A' as u32) <= (c as u32) && (c as u32) <= ('F' as u32) {
        Some(((c as u32) - ('A' as u32) + 10) as u8)
    } else {
        None
    }
}

/// What decoding a hexadecimal text yields: `None` unless the text has even
/// length and every character is a hexadecimal digit, and otherwise one byte
/// per pair of digits, high digit first.
pub open spec fn spec_hex_decode(s: Seq<char>) -> Option<Seq<u8>>
    decreases s.len(),
{
    if s.len() % 2 != 0 {
        None
    } else if s.len() == 0 {
        Some(Seq::empty())
    } else {
        match (hex_digit_value(s[0]), hex_digit_value(s[1])) {
            (Some(hi), Some(lo)) => match spec_hex_decode(s.skip(2)) {
                Some(rest) => Some(seq![(hi * 16 + lo) as u8] + rest),
                None => None,
            },
            _ => None,
        }
    }
}

/// A sanitized name spells a selector when it decodes to exactly 4 bytes.
pub open spec fn spec_selector_of(name: Seq<char>) -> Option<Seq<u8>> {
    match spec_hex_decode(name) {
        Some(bytes) => if bytes.len() == 4 {
            Some(bytes)
        } else {
            None
        },
        None => None,
    }
}

/// Relies on `hex::decode`: it fails exactly when the input's byte length is
/// odd or some byte is not a hexadecimal digit, and otherwise returns one
/// byte per pair of digits, high digit first, either case accepted. On a
/// purely ASCII string that is the rule `spec_hex_decode` states over the
/// characters; a string with a non-ASCII character fails under both readings,
/// since such a character is not a hexadecimal digit and its encoding adds
/// only non-digit bytes.
#[verifier::external_body]
fn hex_decode(s: &str) -> (r: Option<Vec<u8>>)
    ensures
        match r {
            Some(v) => spec_hex_decode(s@) == Some(v@),
            None => spec_hex_decode(s@) is None,
        },
{
    match hex::decode(s) {
        Ok(v) => Some(v),
        Err(_) => None,
    }
}

/// Decode a sanitized name as the 4-byte selector it spells in hexadecimal.
pub fn decode_selector(name: &str) -> (r: Option<Vec<u8>>)
    ensures
        match r {
            Some(v) => spec_selector_of(name@) == Some(v@),
            None => spec_selector_of(name@) is None,
        },
{
    match hex_decode(name) {
        Some(v) => if v.len() == 4 {
            Some(v)
        } else {
            None
        },
        None => None,
    }
}

} // verus!
