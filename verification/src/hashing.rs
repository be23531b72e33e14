//! Content and identity hashes: SHA-256, written as lower-case hex.
use crate::text::concat_str;
use vstd::prelude::*;

verus! {

/// The SHA-256 digest of a byte sequence.
pub uninterp spec fn sha256(data: Seq<u8>) -> Seq<u8>;

/// The lower-case hex digit for a value below 16.
pub open spec fn hex_digit(n: int) -> char {
    if n < 10 {
        ((n + 48) as u8) as char
    } else {
        ((n + 87) as u8) as char
    }
}

/// Bytes as lower-case hex, two digits per byte, high half first.
pub open spec fn hex_lower(b: Seq<u8>) -> Seq<char>
    decreases b.len(),
{
    if b.len() == 0 {
        seq![]
    } else {
        seq![hex_digit(b[0] as int / 16), hex_digit(b[0] as int % 16)] + hex_lower(b.drop_first())
    }
}

/// The hash of a byte sequence as the index writes it: SHA-256 in lower-case hex.
pub open spec fn hash_hex(data: Seq<u8>) -> Seq<char> {
    hex_lower(sha256(data))
}

/// The SHA-256 digest of `data` (`sha2::Sha256::digest`): 32 bytes that
/// depend on `data` alone.
#[verifier::external_body]
fn sha256_digest(data: &[u8]) -> (r: Vec<u8>)
    ensures
        r@ == sha256(data@),
        r@.len() == 32,
{
    <sha2::Sha256 as sha2::Digest>::digest(data).to_vec()
}

/// `hex::encode`: each byte as two lower-case hex digits, high half first.
#[verifier::external_body]
fn hex_encode(data: &[u8]) -> (r: String)
    ensures
        r@ == hex_lower(data@),
{
    hex::encode(data)
}

/// SHA-256 of `data` in lower-case hex.
pub fn hash_text(data: &[u8]) -> (r: String)
    ensures
        r@ == hash_hex(data@),
{
    let digest = sha256_digest(data);
    hex_encode(digest.as_slice())
}

/// SHA-256 of the UTF-8 bytes of `text` in lower-case hex.
pub fn hash_str(text: &str) -> (r: String)
    ensures
        r@ == hash_hex(vstd::utf8::encode_utf8(text@)),
{
    hash_text(text.as_bytes())
}

/// The id of a project with the given (normalized) root directory:
/// `proj_` and the hash of the root.
pub fn hash_project_id(text: &str) -> (r: String)
    ensures
        r@ == "proj_"@ + hash_hex(vstd::utf8::encode_utf8(text@)),
{
    let h = hash_str(text);
    concat_str("proj_", h.as_str())
}

} // verus!
