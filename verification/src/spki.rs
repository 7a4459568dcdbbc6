//! The DER SubjectPublicKeyInfo envelope of an Ed25519 public key
//! (RFC 8410): a fixed 12-byte prefix followed by the 32-byte raw key.
//!
//! ```text
//! SEQUENCE {                       30 2A
//!   SEQUENCE {                       30 05
//!     OBJECT IDENTIFIER 1.3.101.112    06 03 2B 65 70   -- id-Ed25519
//!   }
//!   BIT STRING {                     03 21
//!     unused-bits=0                    00
//!     <32 bytes of key>
//!   }
//! }
//! ```

use vstd::prelude::*;

verus! {

/// Total bytes in an Ed25519 SPKI envelope.
pub const ED25519_SPKI_LEN: usize = 44;

/// Length of the raw Ed25519 public key.
pub const ED25519_KEY_LEN: usize = 32;

/// Length of the fixed prefix.
pub const ED25519_SPKI_PREFIX_LEN: usize = 12;

/// The fixed prefix preceding the 32-byte key value (RFC 8410 §4).
pub const ED25519_SPKI_PREFIX: [u8; ED25519_SPKI_PREFIX_LEN] = [
    0x30,
    0x2A,
    0x30,
    0x05,
    0x06,
    0x03,
    0x2B,
    0x65,
    0x70,
    0x03,
    0x21,
    0x00,
];

pub open spec fn spki_prefix() -> Seq<u8> {
    seq![0x30u8, 0x2Au8, 0x30u8, 0x05u8, 0x06u8, 0x03u8, 0x2Bu8, 0x65u8, 0x70u8, 0x03u8, 0x21u8, 0x00u8]
}

/// `b` is an Ed25519 SPKI envelope: the right length and the fixed prefix.
pub open spec fn is_spki(b: Seq<u8>) -> bool {
    b.len() == ED25519_SPKI_LEN && b.subrange(0, 12) == spki_prefix()
}

/// The envelope of the raw key `k`.
pub open spec fn spki_of(k: Seq<u8>) -> Seq<u8> {
    spki_prefix() + k
}

fn prefix_matches(b: &[u8]) -> (r: bool)
    requires
        b@.len() >= 12,
    ensures
        r == (b@.subrange(0, 12) == spki_prefix()),
{
    let p = ED25519_SPKI_PREFIX;
    proof {
        assert(p@ =~= spki_prefix());
    }
    let mut i: usize = 0;
    while i < 12
        invariant
            i <= 12,
            b@.len() >= 12,
            p@ == spki_prefix(),
            forall|j: int| 0 <= j < i ==> b@[j] == spki_prefix()[j],
        decreases 12 - i,
    {
        if b[i] != p[i] {
            proof {
                assert(b@.subrange(0, 12)[i as int] != spki_prefix()[i as int]);
            }
            return false;
        }
        i = i + 1;
    }
    proof {
        assert(b@.subrange(0, 12) =~= spki_prefix());
    }
    true
}

/// Wrap a 32-byte Ed25519 public key as a DER SPKI envelope.
pub fn wrap_ed25519(raw_key: &[u8; ED25519_KEY_LEN]) -> (r: Vec<u8>)
    ensures
        r@ == spki_of(raw_key@),
{
    let p = ED25519_SPKI_PREFIX;
    let mut out: Vec<u8> = Vec::new();
    crate::tlv::append_bytes(&mut out, p.as_slice());
    crate::tlv::append_bytes(&mut out, raw_key.as_slice());
    proof {
        assert(p@ =~= spki_prefix());
    }
    out
}

/// Extract the 32-byte Ed25519 raw key from a DER SPKI envelope; `None` if
/// the envelope's length or prefix (structure and algorithm OID) does not
/// match the Ed25519 SPKI shape.
pub fn unwrap_ed25519(spki: &[u8]) -> (r: Option<[u8; ED25519_KEY_LEN]>)
    ensures
        r is Some <==> is_spki(spki@),
        r matches Some(k) ==> k@ == spki@.subrange(12, 44),
{
    if spki.len() != ED25519_SPKI_LEN || !prefix_matches(spki) {
        return None;
    }
    let mut key = [0u8; ED25519_KEY_LEN];
    let mut i: usize = 0;
    while i < ED25519_KEY_LEN
        invariant
            i <= ED25519_KEY_LEN,
            spki@.len() == ED25519_SPKI_LEN,
            key@.len() == ED25519_KEY_LEN,
            forall|j: int| 0 <= j < i ==> key@[j] == spki@[12 + j],
        decreases ED25519_KEY_LEN - i,
    {
        key[i] = spki[12 + i];
        i = i + 1;
    }
    proof {
        assert(key@ =~= spki@.subrange(12, 44));
    }
    Some(key)
}

/// Whether `bytes` has the Ed25519 SPKI length and prefix.
pub fn is_ed25519_spki(bytes: &[u8]) -> (r: bool)
    ensures
        r == is_spki(bytes@),
{
    bytes.len() == ED25519_SPKI_LEN && prefix_matches(bytes)
}

/// Unwrapping the envelope of a key gives the key back, and every envelope
/// is the envelope of the key it holds.
pub proof fn lemma_spki_roundtrip(k: Seq<u8>, b: Seq<u8>)
    ensures
        k.len() == ED25519_KEY_LEN ==> is_spki(spki_of(k)) && spki_of(k).subrange(12, 44) == k,
        is_spki(b) ==> spki_of(b.subrange(12, 44)) == b,
{
    if k.len() == ED25519_KEY_LEN {
        assert(spki_of(k).subrange(0, 12) =~= spki_prefix());
        assert(spki_of(k).subrange(12, 44) =~= k);
    }
    if is_spki(b) {
        assert(spki_of(b.subrange(12, 44)) =~= b) by {
            assert(b =~= b.subrange(0, 12) + b.subrange(12, 44));
        }
    }
}

} // verus!
