//! SHA-256 digests, through the `sha2` crate.

use sha2::Digest;
use vstd::prelude::*;

verus! {

/// The SHA-256 digest of `data`, as the `sha2` crate computes it.
pub uninterp spec fn sha256_of(data: Seq<u8>) -> Seq<u8>;

/// `Sha256::digest` of the `sha2` crate; the contract claims the 32-byte
/// output is the digest of `data`.
#[verifier::external_body]
pub fn sha256(data: &[u8]) -> (r: [u8; 32])
    ensures
        r@ == sha256_of(data@),
        r@.len() == 32,
{
    sha2::Sha256::digest(data).into()
}

/// A 32-byte SHA-256 digest.
#[derive(Debug, Clone, Copy, PartialEq, Eq, Hash)]
pub struct Hash(pub [u8; 32]);

impl Hash {
    /// The digest of `data`.
    pub fn of(data: &[u8]) -> (r: Hash)
        ensures
            r.0@ == sha256_of(data@),
    {
        Hash(sha256(data))
    }

    /// A digest given by its bytes.
    pub fn from_bytes(b: [u8; 32]) -> (r: Hash)
        ensures
            r == Hash(b),
    {
        Hash(b)
    }
}

} // verus!
