//! Calls into the cryptography crates: HMAC-SHA1 (`ring`), Ed25519
//! signatures (`ed25519-dalek`) and operating-system randomness
//! (`getrandom`).

use ed25519_dalek::Verifier;
use vstd::prelude::*;

verus! {

/// The HMAC-SHA1 tag of `msg` under `key`, as `ring` computes it.
pub uninterp spec fn hmac_sha1(key: Seq<u8>, msg: Seq<u8>) -> Seq<u8>;

/// `ring::hmac::sign` with `HMAC_SHA1_FOR_LEGACY_USE_ONLY`; the contract
/// claims the 20-byte tag is the HMAC of `msg` under `key`.
#[verifier::external_body]
pub fn hmac_sha1_tag(key: &[u8], msg: &[u8]) -> (r: Vec<u8>)
    ensures
        r@ == hmac_sha1(key@, msg@),
        r@.len() == 20,
{
    let k = ring::hmac::Key::new(ring::hmac::HMAC_SHA1_FOR_LEGACY_USE_ONLY, key);
    ring::hmac::sign(&k, msg).as_ref().to_vec()
}

/// Whether `ed25519-dalek` accepts `sig` as a signature of `msg` by the key
/// `pk` (`VerifyingKey::verify`).
pub uninterp spec fn ed25519_accepts(pk: Seq<u8>, msg: Seq<u8>, sig: Seq<u8>) -> bool;

/// Ed25519 verification through `ed25519-dalek`: a key that is not 32 bytes
/// or not a curve point, or a signature that is not 64 bytes, is refused.
/// The contract claims the answer is `ed25519_accepts` of the arguments, and
/// that an accepted key and signature have those lengths.
#[verifier::external_body]
pub fn ed25519_verify(pk: &[u8], msg: &[u8], sig: &[u8]) -> (r: bool)
    ensures
        r == ed25519_accepts(pk@, msg@, sig@),
        r ==> pk@.len() == 32 && sig@.len() == 64,
{
    match (<[u8; 32]>::try_from(pk), ed25519_dalek::Signature::from_slice(sig)) {
        (Ok(arr), Ok(s)) => match ed25519_dalek::VerifyingKey::from_bytes(&arr) {
            Ok(vk) => vk.verify(msg, &s).is_ok(),
            Err(_) => false,
        },
        _ => false,
    }
}

/// The public key of the Ed25519 key with this 32-byte seed.
pub uninterp spec fn ed25519_public_key(seed: Seq<u8>) -> Seq<u8>;

/// The Ed25519 signature of `msg` by the key with this seed (Ed25519
/// signing is deterministic).
pub uninterp spec fn ed25519_signature(seed: Seq<u8>, msg: Seq<u8>) -> Seq<u8>;

/// `SigningKey::from_bytes(seed).verifying_key()`: the 32-byte public key.
#[verifier::external_body]
pub fn ed25519_public(seed: &[u8; 32]) -> (r: [u8; 32])
    ensures
        r@ == ed25519_public_key(seed@),
{
    ed25519_dalek::SigningKey::from_bytes(seed).verifying_key().to_bytes()
}

/// `SigningKey::from_bytes(seed).sign(msg)`: the 64-byte signature, which
/// the key's own public key accepts.
#[verifier::external_body]
pub fn ed25519_sign(seed: &[u8; 32], msg: &[u8]) -> (r: Vec<u8>)
    ensures
        r@ == ed25519_signature(seed@, msg@),
        r@.len() == 64,
        ed25519_accepts(ed25519_public_key(seed@), msg@, r@),
{
    let key = ed25519_dalek::SigningKey::from_bytes(seed);
    ed25519_dalek::Signer::sign(&key, msg).to_bytes().to_vec()
}

/// The HMAC-SHA256 tag of `msg` under `key`, as `ring` computes it.
pub uninterp spec fn hmac_sha256(key: Seq<u8>, msg: Seq<u8>) -> Seq<u8>;

/// `ring::hmac::sign` with `HMAC_SHA256`: the 32-byte tag.
#[verifier::external_body]
pub fn hmac_sha256_tag(key: &[u8], msg: &[u8]) -> (r: Vec<u8>)
    ensures
        r@ == hmac_sha256(key@, msg@),
        r@.len() == 32,
{
    let k = ring::hmac::Key::new(ring::hmac::HMAC_SHA256, key);
    ring::hmac::sign(&k, msg).as_ref().to_vec()
}

/// `getrandom::getrandom` into a fresh buffer of `n` bytes. Nothing is
/// promised of the bytes (if the source fails they stay zero).
#[verifier::external_body]
pub fn random_bytes(n: usize) -> (r: Vec<u8>)
    ensures
        r@.len() == n,
{
    let mut b = vec![0u8; n];
    let _ = getrandom::getrandom(&mut b);
    b
}

} // verus!
