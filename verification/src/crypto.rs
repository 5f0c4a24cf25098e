//! The outside cryptography the library relies on: BLAKE3 digests, Ed25519
//! keys and signatures, and operating-system randomness. Each item here is
//! trusted, not proved; its doc comment says what is claimed of the call.

use vstd::prelude::*;

use ed25519_dalek::Signer;
use ed25519_dalek::Verifier;

verus! {

/// The BLAKE3 digest of a byte string (`blake3::hash`).
pub uninterp spec fn blake3_of(data: Seq<u8>) -> [u8; 32];

/// The Ed25519 public key that `ed25519_dalek::SigningKey::from_bytes` derives
/// from a 32-byte secret seed.
pub uninterp spec fn ed25519_public_of(seed: Seq<u8>) -> [u8; 32];

/// The Ed25519 signature that `ed25519_dalek::SigningKey::sign` produces for a
/// seed and a message (Ed25519 signing is deterministic).
pub uninterp spec fn ed25519_signature_of(seed: Seq<u8>, msg: Seq<u8>) -> [u8; 64];

/// Whether `ed25519_dalek::VerifyingKey::verify` accepts a signature on a
/// message under a public key (a key that fails to decompress accepts nothing).
pub uninterp spec fn ed25519_accepts(public: Seq<u8>, msg: Seq<u8>, sig: Seq<u8>) -> bool;

/// `blake3::hash`: the 32-byte digest of `data`. Claimed: the result is the
/// digest named by `blake3_of`, a function of the input bytes alone.
#[verifier::external_body]
pub(crate) fn blake3_hash(data: &[u8]) -> (r: [u8; 32])
    ensures
        r == blake3_of(data@),
{
    *blake3::hash(data).as_bytes()
}

/// `ed25519_dalek::SigningKey::from_bytes(seed).verifying_key()`: the public
/// key of a seed. Claimed: the result is the key named by `ed25519_public_of`.
#[verifier::external_body]
pub(crate) fn ed25519_public_key(seed: &[u8; 32]) -> (r: [u8; 32])
    ensures
        r == ed25519_public_of(seed@),
{
    ed25519_dalek::SigningKey::from_bytes(seed).verifying_key().to_bytes()
}

/// `ed25519_dalek::SigningKey::sign`: sign `msg` with the key of `seed`.
/// Claimed: the result is the signature named by `ed25519_signature_of`, and
/// verification under the seed's public key accepts it (Ed25519 correctness).
#[verifier::external_body]
pub(crate) fn ed25519_sign(seed: &[u8; 32], msg: &[u8]) -> (r: [u8; 64])
    ensures
        r == ed25519_signature_of(seed@, msg@),
        ed25519_accepts(ed25519_public_of(seed@)@, msg@, r@),
{
    ed25519_dalek::SigningKey::from_bytes(seed).sign(msg).to_bytes()
}

/// `ed25519_dalek::VerifyingKey::from_bytes(public)` followed by `verify`:
/// whether `sig` is a valid signature on `msg` under `public`. Claimed: the
/// result is the verdict named by `ed25519_accepts`. Nothing is claimed about
/// which signatures are refused.
#[verifier::external_body]
pub(crate) fn ed25519_verify(public: &[u8; 32], msg: &[u8], sig: &[u8]) -> (r: bool)
    requires
        sig@.len() == 64,
    ensures
        r == ed25519_accepts(public@, msg@, sig@),
{
    let bytes: [u8; 64] = <[u8; 64]>::try_from(sig).unwrap();
    match ed25519_dalek::VerifyingKey::from_bytes(public) {
        Ok(vk) => vk.verify(msg, &ed25519_dalek::Signature::from_bytes(&bytes)).is_ok(),
        Err(_) => false,
    }
}

/// `getrandom::fill` over 32 bytes: fresh randomness from the operating
/// system, or `None` when the system source fails. Nothing is claimed about
/// the bytes.
#[verifier::external_body]
pub(crate) fn random_32() -> (r: Option<[u8; 32]>) {
    let mut buf = [0u8; 32];
    match getrandom::fill(&mut buf) {
        Ok(()) => Some(buf),
        Err(_) => None,
    }
}

} // verus!
