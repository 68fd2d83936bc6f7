//! Contracts for the functions of outside crates that the library calls.
use vstd::prelude::*;
use crate::text::decimal;

verus! {

/// The value of one hexadecimal digit byte (`0-9`, `a-f`, `A-F`).
pub open spec fn hex_digit_value(b: u8) -> Option<u8> {
    if 0x30 <= b <= 0x39 {
        Some((b - 0x30) as u8)
    } else if 0x41 <= b <= 0x46 {
        Some((b - 0x41 + 10) as u8)
    } else if 0x61 <= b <= 0x66 {
        Some((b - 0x61 + 10) as u8)
    } else {
        None
    }
}

/// Hexadecimal decoding: each pair of digits, high digit first, is one byte;
/// an odd length or a byte that is not a hex digit is an error.
pub open spec fn hex_decode_spec(d: Seq<u8>) -> Option<Seq<u8>>
    decreases d.len(),
{
    if d.len() % 2 != 0 {
        None
    } else if d.len() == 0 {
        Some(Seq::<u8>::empty())
    } else {
        match (hex_digit_value(d[0]), hex_digit_value(d[1]), hex_decode_spec(d.subrange(2, d.len() as int))) {
            (Some(hi), Some(lo), Some(rest)) => Some(seq![(hi * 16 + lo) as u8] + rest),
            _ => None,
        }
    }
}

pub proof fn lemma_hex_decode_len(d: Seq<u8>)
    ensures
        hex_decode_spec(d) matches Some(v) ==> v.len() * 2 == d.len(),
    decreases d.len(),
{
    if d.len() % 2 == 0 && d.len() > 0 {
        lemma_hex_decode_len(d.subrange(2, d.len() as int));
    }
}

/// `i` is the position of the first byte of `d` that is not a hex digit.
pub open spec fn first_non_hex(d: Seq<u8>, i: int) -> bool {
    &&& 0 <= i < d.len()
    &&& hex_digit_value(d[i]) is None
    &&& forall|j: int| 0 <= j < i ==> (#[trigger] hex_digit_value(d[j])) is Some
}

/// A byte that `{:?}` shows as itself between single quotes: a visible
/// ASCII character other than the quote and the backslash.
pub open spec fn shown_plainly(b: u8) -> bool {
    0x21 <= b <= 0x7e && b != 0x27 && b != 0x5c
}

/// What `hex::decode` reports for an input it refuses: `Odd number of
/// digits` for an odd length; otherwise `Invalid character <c> at position
/// <i>` for the first byte `c` that is not a hex digit, `c` shown as `{:?}`
/// shows it (quoted, and escaped where it is not a plain visible character).
pub open spec fn hex_error_message(d: Seq<u8>, m: Seq<char>) -> bool {
    if d.len() % 2 != 0 {
        m == "Odd number of digits"@
    } else {
        exists|i: int, q: Seq<char>|
            #![trigger first_non_hex(d, i), "Invalid character "@ + q]
            first_non_hex(d, i) && m == "Invalid character "@ + q + " at position "@ + decimal(i as nat) && (
            shown_plainly(d[i]) ==> q == seq!['\'', (d[i] as u32) as char, '\''])
    }
}

/// `hex::decode`, with a refusal turned into its `Display` text: succeeds
/// exactly when the input is an even number of hex digits (either case),
/// and then yields one byte per pair of digits, the first digit of the pair
/// being the high nibble; a refusal names the odd length or the first
/// offending byte and its position (see `hex_error_message`).
#[verifier::external_body]
pub(crate) fn hex_decode(data: &[u8]) -> (r: Result<Vec<u8>, String>)
    ensures
        match hex_decode_spec(data@) {
            Some(v) => r matches Ok(w) && w@ == v,
            None => r matches Err(m) && hex_error_message(data@, m@),
        },
{
    match hex::decode(data) {
        Ok(v) => Ok(v),
        Err(e) => Err(e.to_string()),
    }
}

/// The SHA-256 digest of a byte string.
pub uninterp spec fn sha256_spec(data: Seq<u8>) -> Seq<u8>;

/// `sha2::Sha256::digest`: the SHA-256 digest of `data`, which is 32 bytes
/// long.
#[verifier::external_body]
pub(crate) fn sha256_digest(data: &[u8]) -> (r: Vec<u8>)
    ensures
        r@ == sha256_spec(data@),
        r@.len() == 32,
{
    <sha2::Sha256 as sha2::Digest>::digest(data).to_vec()
}

} // verus!
