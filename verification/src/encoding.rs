//! Text encodings of byte strings, computed by the `hex` and `base64` crates.

use vstd::prelude::*;

verus! {

/// The lowercase hexadecimal digit of a value below sixteen.
pub open spec fn hex_digit(nibble: int) -> char {
    if nibble < 10 {
        (nibble + 48) as u8 as char
    } else {
        (nibble + 87) as u8 as char
    }
}

/// Two lowercase hexadecimal digits per byte, the high half first.
pub open spec fn hex_encoding(bytes: Seq<u8>) -> Seq<char> {
    Seq::new(
        2 * bytes.len(),
        |i: int|
            if i % 2 == 0 {
                hex_digit(bytes[i / 2] as int / 16)
            } else {
                hex_digit(bytes[i / 2] as int % 16)
            },
    )
}

/// The padded base64 text, in the standard alphabet, that `base64::encode`
/// gives for a byte string.
pub uninterp spec fn base64_encoding(bytes: Seq<u8>) -> Seq<char>;

/// Calls `hex::encode`. Trusted: the text holds, for each byte in turn, its two
/// lowercase hexadecimal digits, as the crate documents and its lookup table
/// `0123456789abcdef` shows.
#[verifier::external_body]
pub(crate) fn hex_encode(bytes: &[u8]) -> (text: String)
    ensures
        text@ == hex_encoding(bytes@),
{
    hex::encode(bytes)
}

/// Calls `base64::encode`. Trusted: the text is a function of the bytes alone
/// (the crate's fixed standard configuration). The crate panics only when the
/// encoded size overflows `usize`, which no slice in memory reaches.
#[verifier::external_body]
pub(crate) fn base64_encode(bytes: &[u8]) -> (text: String)
    ensures
        text@ == base64_encoding(bytes@),
{
    base64::encode(bytes)
}

} // verus!
