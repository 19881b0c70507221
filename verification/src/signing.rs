//! Ed25519 keys and signatures, by the crate ed25519-dalek.

use crate::hexcode;
use crate::hexcode::hex_text;
use ed25519_dalek::Signature;
use ed25519_dalek::Signer;
use ed25519_dalek::SigningKey;
use ed25519_dalek::Verifier;
use ed25519_dalek::VerifyingKey;
use vstd::prelude::*;

verus! {

/// The public key that belongs to a secret key.
pub uninterp spec fn ed25519_public_key(secret: Seq<u8>) -> [u8; 32];

/// The signature that a secret key makes on a message.
pub uninterp spec fn ed25519_signature(secret: Seq<u8>, message: Seq<u8>) -> [u8; 64];

/// Whether `public` is the encoding of a key under which `signature` is
/// accepted for `message`.
pub uninterp spec fn ed25519_accepts(public: Seq<u8>, message: Seq<u8>, signature: Seq<u8>) -> bool;

/// The address of a key pair: its public key in hexadecimal.
pub open spec fn address_text(secret: Seq<u8>) -> Seq<char> {
    hex_text(ed25519_public_key(secret)@)
}

/// `SigningKey::from_bytes`, `verifying_key` and `to_bytes`: the public half
/// of the key pair that a secret key stands for.
#[verifier::external_body]
pub(crate) fn public_key(secret: &[u8; 32]) -> (public: [u8; 32])
    ensures
        public == ed25519_public_key(secret@),
{
    SigningKey::from_bytes(secret).verifying_key().to_bytes()
}

/// `Signer::sign` on a `SigningKey`. The signature is a function of key and
/// message alone, and the crate's documentation promises that the key pair's
/// public half accepts it.
#[verifier::external_body]
pub(crate) fn sign(secret: &[u8; 32], message: &[u8]) -> (signature: [u8; 64])
    ensures
        signature == ed25519_signature(secret@, message@),
        ed25519_accepts(ed25519_public_key(secret@)@, message@, signature@),
{
    SigningKey::from_bytes(secret).sign(message).to_bytes()
}

/// `VerifyingKey::from_bytes`, then `Verifier::verify`: false where the bytes
/// are no public key, and where the key refuses the signature.
#[verifier::external_body]
pub(crate) fn verify(public: &[u8; 32], message: &[u8], signature: &[u8; 64]) -> (accepted: bool)
    ensures
        accepted == ed25519_accepts(public@, message@, signature@),
{
    match VerifyingKey::from_bytes(public) {
        Ok(key) => key.verify(message, &Signature::from_bytes(signature)).is_ok(),
        Err(_) => false,
    }
}

/// Copies bytes into an array of `N`, where there are `N` of them.
pub fn to_array<const N: usize>(bytes: &[u8]) -> (array: Option<[u8; N]>)
    ensures
        array is Some <==> bytes@.len() == N,
        array matches Some(a) ==> a@ == bytes@,
{
    if bytes.len() != N {
        return None;
    }
    let mut array: [u8; N] = [0u8; N];
    let mut i: usize = 0;
    while i < N
        invariant
            i <= N,
            bytes@.len() == N,
            forall|j: int| 0 <= j < i ==> array@[j] == bytes@[j],
        decreases N - i,
    {
        array[i] = bytes[i];
        i += 1;
    }
    assert(array@ =~= bytes@);
    Some(array)
}

/// The address under which the holder of `secret` sends and receives.
pub fn address_of(secret: &[u8; 32]) -> (address: String)
    ensures
        address@ == address_text(secret@),
        address@.len() == 64,
{
    let public = public_key(secret);
    hexcode::encode(public.as_slice())
}

} // verus!
