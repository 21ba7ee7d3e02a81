//! SHA-256 content digests in lowercase hexadecimal.
use vstd::prelude::*;

verus! {

/// The SHA-256 digest of the UTF-8 encoding of a text.
pub uninterp spec fn sha256_of(s: Seq<char>) -> Seq<u8>;

/// Lowercase hexadecimal digit for a value below 16.
pub open spec fn hex_digit(n: u8) -> char {
    seq!['0', '1', '2', '3', '4', '5', '6', '7', '8', '9', 'a', 'b', 'c', 'd', 'e', 'f'][n as int]
}

/// Two lowercase hexadecimal digits per byte, high nibble first.
pub open spec fn hex_of(b: Seq<u8>) -> Seq<char>
    decreases b.len(),
{
    if b.len() == 0 {
        Seq::empty()
    } else {
        hex_of(b.drop_last()) + seq![hex_digit(b.last() / 16), hex_digit(b.last() % 16)]
    }
}

/// The tracker's fingerprint of a content string.
pub open spec fn content_hash(s: Seq<char>) -> Seq<char> {
    hex_of(sha256_of(s))
}

/// Relies on `sha2::Sha256::digest`: the 32-byte SHA-256 digest of the
/// string's UTF-8 bytes, which depends on the text alone.
#[verifier::external_body]
fn sha256_utf8(s: &str) -> (r: Vec<u8>)
    ensures
        r@ == sha256_of(s@),
        r@.len() == 32,
{
    <sha2::Sha256 as sha2::Digest>::digest(s.as_bytes()).to_vec()
}

/// Relies on `hex::encode`: each byte as two lowercase hexadecimal digits.
#[verifier::external_body]
fn to_hex(b: &[u8]) -> (r: String)
    ensures
        r@ == hex_of(b@),
{
    hex::encode(b)
}

/// Hexadecimal SHA-256 of a content string.
pub fn hash_content(content: &str) -> (r: String)
    ensures
        r@ == content_hash(content@),
{
    let d = sha256_utf8(content);
    to_hex(d.as_slice())
}

} // verus!
