//! The checksum of a source text: the SHA-256 digest of its bytes, in
//! lowercase hexadecimal.

use sha2::Digest;
use vstd::prelude::*;
use vstd::utf8::encode_utf8;

verus! {

/// The SHA-256 digest of a sequence of bytes.
pub uninterp spec fn sha256(data: Seq<u8>) -> Seq<u8>;

/// The lowercase hexadecimal digit of a number below sixteen.
pub open spec fn hex_digit(n: u8) -> char {
    if n < 10 {
        ((48 + n) as u8) as char
    } else {
        ((87 + n) as u8) as char
    }
}

/// Two lowercase hexadecimal digits for each byte, the high half first.
pub open spec fn hex_text(data: Seq<u8>) -> Seq<char> {
    Seq::new(
        2 * data.len(),
        |i: int|
            hex_digit(
                if i % 2 == 0 {
                    data[i / 2] / 16
                } else {
                    data[i / 2] % 16
                },
            ),
    )
}

/// Calls `sha2::Sha256::digest`. What is not proved: that the bytes returned
/// are the SHA-256 digest of `data`, which has 32 bytes.
#[verifier::external_body]
fn digest(data: &Vec<u8>) -> (r: Vec<u8>)
    ensures
        r@ == sha256(data@),
        r@.len() == 32,
{
    sha2::Sha256::digest(data).to_vec()
}

/// Calls `hex::encode`. What is not proved: that the string returned holds,
/// for each byte of `data` in order, the digit of its high half and then the
/// digit of its low half, out of `0123456789abcdef`.
#[verifier::external_body]
fn encode(data: &Vec<u8>) -> (r: String)
    ensures
        r@ == hex_text(data@),
{
    hex::encode(data)
}

/// The checksum of a source text.
pub fn checksum_of(source: &str) -> (r: String)
    ensures
        r@ == hex_text(sha256(encode_utf8(source@))),
        r@.len() == 64,
{
    let bytes = source.as_bytes_vec();
    let hash = digest(&bytes);
    encode(&hash)
}

} // verus!
