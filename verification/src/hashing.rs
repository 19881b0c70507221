//! SHA-256 and the hexadecimal text of a digest.

use crate::hexcode;
use crate::hexcode::hex_text;
use sha2::Digest;
use sha2::Sha256;
use vstd::prelude::*;

verus! {

/// The SHA-256 digest of `data`.
pub uninterp spec fn sha256_digest(data: Seq<u8>) -> [u8; 32];

/// Whether SHA-256 tells `a` and `b` apart, if they differ at all.
pub open spec fn no_collision(a: Seq<u8>, b: Seq<u8>) -> bool {
    sha256_digest(a) == sha256_digest(b) ==> a == b
}

/// The hexadecimal text of the SHA-256 digest of `data`: 64 characters.
pub open spec fn digest_text(data: Seq<u8>) -> Seq<char> {
    hex_text(sha256_digest(data)@)
}

/// `Sha256::digest` of the crate sha2: the digest of `data`, which is a
/// function of the bytes alone.
#[verifier::external_body]
pub(crate) fn sha256(data: &[u8]) -> (digest: [u8; 32])
    ensures
        digest == sha256_digest(data@),
{
    Sha256::digest(data).into()
}

/// Hashes `data` and writes the digest in hexadecimal.
pub fn hash_hex(data: &[u8]) -> (text: String)
    ensures
        text@ == digest_text(data@),
        text@.len() == 64,
{
    let digest = sha256(data);
    hexcode::encode(digest.as_slice())
}

} // verus!
