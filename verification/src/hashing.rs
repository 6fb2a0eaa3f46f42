//! Content hashing: SHA-256 digests of UTF-8 bytes, hex-encoded, used both
//! for change detection and for deriving stable site identifiers.

use vstd::prelude::*;
use vstd::utf8::encode_utf8;

use sha2::Digest;

verus! {

/// What SHA-256 returns for the given bytes: a function of the input alone,
/// identical across processes and machines.
pub uninterp spec fn sha256_of(bytes: Seq<u8>) -> Seq<u8>;

/// Relies on sha2's SHA-256 implementation: the digest is thirty-two bytes
/// and depends on the input bytes alone.
#[verifier::external_body]
fn sha256_bytes(bytes: &[u8]) -> (r: Vec<u8>)
    ensures
        r@ == sha256_of(bytes@),
        r@.len() == 32,
{
    let mut hasher = sha2::Sha256::new();
    hasher.update(bytes);
    hasher.finalize().to_vec()
}

/// Lowercase hexadecimal digit for a value below sixteen.
pub open spec fn hex_digit(n: u8) -> char
    recommends
        n < 16,
{
    if n < 10 {
        ((n + 0x30) as char)
    } else {
        ((n + 0x57) as char)
    }
}

/// Lowercase hex encoding: two digits per byte, high nibble first.
pub open spec fn hex_of(bytes: Seq<u8>) -> Seq<char>
    decreases bytes.len(),
{
    if bytes.len() == 0 {
        Seq::empty()
    } else {
        seq![hex_digit(bytes[0] / 16), hex_digit(bytes[0] % 16)] + hex_of(bytes.drop_first())
    }
}

/// Hex encoding yields two digits per byte.
pub proof fn lemma_hex_of_len(bytes: Seq<u8>)
    ensures
        hex_of(bytes).len() == 2 * bytes.len(),
    decreases bytes.len(),
{
    if bytes.len() > 0 {
        lemma_hex_of_len(bytes.drop_first());
    }
}

/// Relies on hex::encode: two lowercase hexadecimal digits per input byte,
/// high nibble first.
#[verifier::external_body]
fn hex_bytes(bytes: &[u8]) -> (r: String)
    ensures
        r@ == hex_of(bytes@),
{
    hex::encode(bytes)
}

/// The digest string of a piece of content: lowercase hex of the SHA-256
/// of its UTF-8 bytes.
pub open spec fn hash_of(content: Seq<char>) -> Seq<char> {
    hex_of(sha256_of(encode_utf8(content)))
}

/// Hashes normalized content for change detection.
pub fn compute_hash(content: &str) -> (r: String)
    ensures
        r@ == hash_of(content@),
        r@.len() == 64,
{
    let d = sha256_bytes(content.as_bytes());
    proof {
        lemma_hex_of_len(d@);
    }
    hex_bytes(d.as_slice())
}

/// A site's stable identifier: the first eight bytes of the SHA-256 digest
/// of the URL, hex-encoded. Deterministic, so the same URL always maps to
/// the same identifier.
pub open spec fn id_of(url: Seq<char>) -> Seq<char> {
    hex_of(sha256_of(encode_utf8(url)).take(8))
}

/// Derives the stable identifier for a URL.
pub fn generate_id(url: &str) -> (r: String)
    ensures
        r@ == id_of(url@),
        r@.len() == 16,
{
    let d = sha256_bytes(url.as_bytes());
    let mut first: Vec<u8> = Vec::new();
    let mut i: usize = 0;
    while i < 8
        invariant
            d@.len() == 32,
            i <= 8,
            first@ =~= d@.take(i as int),
        decreases 8 - i,
    {
        first.push(d[i]);
        i += 1;
        proof {
            assert(first@ =~= d@.take(i as int));
        }
    }
    proof {
        lemma_hex_of_len(first@);
        assert(first@ =~= sha256_of(encode_utf8(url@)).take(8));
    }
    hex_bytes(first.as_slice())
}

} // verus!
