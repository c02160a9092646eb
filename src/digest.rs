//! Content digests: SHA-256 over the payload bytes, as lower-case hex.

use vstd::prelude::*;
use crypto::digest::Digest;

verus! {

/// The hex SHA-256 digest of a byte string, as rust-crypto computes it.
pub uninterp spec fn sha256_hex(b: Seq<u8>) -> Seq<u8>;

/// Whether a payload is short enough to digest: SHA-256 counts the message
/// length in bits in 64 bits.
pub open spec fn digestible(b: Seq<u8>) -> bool {
    b.len() < 0x2000_0000_0000_0000
}

/// Relies on rust-crypto's `Sha256::input` and `Digest::result_str`: the hex text of
/// the 32-byte digest, two digits per byte, a function of the input bytes alone.
/// `input` panics on a message of 2^61 bytes or more.
#[verifier::external_body]
fn sha256_hex_bytes(b: &[u8]) -> (r: Vec<u8>)
    requires
        digestible(b@),
    ensures
        r@ == sha256_hex(b@),
        r@.len() == 64,
{
    let mut hasher = crypto::sha2::Sha256::new();
    hasher.input(b);
    hasher.result_str().into_bytes()
}

/// The content digest of a payload.
pub open spec fn content_digest(payload: Seq<u8>) -> Seq<u8> {
    sha256_hex(payload)
}

/// Computes the content digest of `payload`.
pub fn digest(payload: &[u8]) -> (r: Vec<u8>)
    requires
        digestible(payload@),
    ensures
        r@ == content_digest(payload@),
        r@.len() == 64,
{
    sha256_hex_bytes(payload)
}

/// The digest is a function of the payload bytes alone: equal payloads give
/// equal digests, in every call and every process.
pub proof fn lemma_digest_deterministic(a: Seq<u8>, b: Seq<u8>)
    requires
        a == b,
    ensures
        content_digest(a) == content_digest(b),
{
}

} // verus!
