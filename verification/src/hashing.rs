//! Content identity: a whole-file cryptographic digest (hex encoded) and the
//! fixed-length prefix used for naming derivative files on disk.

use vstd::prelude::*;
use vstd::string::*;
use vstd::utf8::encode_utf8;

verus! {

/// The hex digest the hashing primitive assigns to a byte string; a function
/// of the bytes alone.
pub uninterp spec fn blake3_hex_of(bytes: Seq<u8>) -> Seq<char>;

pub open spec fn is_lower_hex_char(c: char) -> bool {
    ('0' <= c && c <= '9') || ('a' <= c && c <= 'f')
}

/// Relies on blake3::hash and blake3::Hash::to_hex: a 256-bit digest of the
/// input bytes alone, rendered as 64 lowercase hex characters.
#[verifier::external_body]
pub fn hash_bytes(bytes: &[u8]) -> (r: String)
    ensures
        r@ == blake3_hex_of(bytes@),
        r@.len() == 64,
        forall|i: int| 0 <= i < r@.len() ==> is_lower_hex_char(#[trigger] r@[i]),
{
    String::from(blake3::hash(bytes).to_hex().as_str())
}

/// The stable secondary key derived from a folder path.
pub open spec fn folder_hash_of(path: Seq<char>) -> Seq<char> {
    blake3_hex_of(encode_utf8(path))
}

/// Hash a canonical folder path into its stable secondary key.
pub fn generate_folder_hash(path: &str) -> (r: String)
    ensures
        r@ == folder_hash_of(path@),
        r@.len() == 64,
{
    hash_bytes(path.as_bytes())
}

/// The fixed-length prefix of a digest used in cache file names.
pub open spec fn short_of(h: Seq<char>) -> Seq<char> {
    if h.len() <= 16 {
        h
    } else {
        h.take(16)
    }
}

/// First 16 characters of a full content hash, for cache file names.
pub fn short_hash(full_hash: &str) -> (r: String)
    ensures
        r@ == short_of(full_hash@),
{
    let n = full_hash.unicode_len();
    if n <= 16 {
        full_hash.to_owned()
    } else {
        let prefix = full_hash.substring_char(0, 16);
        prefix.to_owned()
    }
}

} // verus!
