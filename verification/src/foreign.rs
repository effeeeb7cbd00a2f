//! Trusted declarations for the outside calls the library's logic makes:
//! base58 decoding of node identities and hex decoding of oracle keys.

use vstd::prelude::*;

verus! {

/// What base58 decoding (Bitcoin alphabet) yields on the given bytes: the
/// decoded bytes, or nothing when the input is not valid base58. The
/// result depends on the input bytes alone.
pub uninterp spec fn base58_of(s: Seq<u8>) -> Option<Seq<u8>>;

/// Relies on `bs58::decode(..).into_vec()`: decodes base58 in the Bitcoin
/// alphabet, failing on any character outside it; a decode is never longer
/// than its input.
#[verifier::external_body]
pub fn decode_base58(s: &[u8]) -> (r: Option<Vec<u8>>)
    ensures
        r matches Some(v) ==> base58_of(s@) == Some(v@) && v@.len() <= s@.len(),
        r is None ==> base58_of(s@) is None,
{
    match bs58::decode(s).into_vec() {
        Ok(v) => Some(v),
        Err(_) => None,
    }
}

/// Whether a byte is an ASCII hex digit, either case.
pub open spec fn is_hex_digit(c: u8) -> bool {
    (0x30 <= c <= 0x39) || (0x41 <= c <= 0x46) || (0x61 <= c <= 0x66)
}

/// The value of an ASCII hex digit.
pub open spec fn hex_val(c: u8) -> int
    recommends
        is_hex_digit(c),
{
    if 0x30 <= c <= 0x39 {
        c - 0x30
    } else if 0x41 <= c <= 0x46 {
        c - 0x41 + 10
    } else {
        c - 0x61 + 10
    }
}

/// What decoding a hex string yields: a byte for every two digits, or
/// nothing when the length is odd or a character is not a hex digit.
pub open spec fn spec_hex_decode(s: Seq<u8>) -> Option<Seq<u8>> {
    if s.len() % 2 == 0 && (forall|i: int| 0 <= i < s.len() ==> is_hex_digit(#[trigger] s[i])) {
        Some(
            Seq::new(
                s.len() / 2,
                |i: int| (hex_val(s[2 * i]) * 16 + hex_val(s[2 * i + 1])) as u8,
            ),
        )
    } else {
        None
    }
}

/// Relies on `hex::decode`: accepts both character cases, fails on an odd
/// length or on any character that is not a hex digit, and yields one byte
/// per digit pair, high digit first.
#[verifier::external_body]
pub fn hex_decode(s: &[u8]) -> (r: Option<Vec<u8>>)
    ensures
        r matches Some(v) ==> spec_hex_decode(s@) == Some(v@),
        r is None ==> spec_hex_decode(s@) is None,
{
    match hex::decode(s) {
        Ok(v) => Some(v),
        Err(_) => None,
    }
}

} // verus!
