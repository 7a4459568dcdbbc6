//! Content-key indirection: content is sealed under a random content key
//! (ChaCha20-Poly1305), and the content key is wrapped separately for its
//! recipients. A rotating key replaces itself after a maximum age or a
//! maximum number of seals.

use vstd::prelude::*;

use rand_core::RngCore;

verus! {

/// Length of a content key, in bytes.
pub const CK_LEN: usize = 32;

/// Length of an AEAD nonce, in bytes.
pub const NONCE_LEN: usize = 12;

/// Length of the AEAD authentication tag, in bytes.
pub const TAG_LEN: usize = 16;

/// Length of an epoch identifier, in bytes.
pub const EPOCH_ID_LEN: usize = 8;

/// Default maximum age of a content key before rotation, in seconds.
pub const DEFAULT_MAX_EPOCH_AGE_SECS: u64 = 60;

/// Default maximum number of seals under one content key before rotation.
pub const DEFAULT_MAX_EPOCH_USES: u64 = 10000;

/// The longest plaintext ChaCha20-Poly1305 seals, in bytes.
pub const AEAD_MAX_INPUT_LEN: u64 = 274877906880;

/// Errors of the content-key layer.
#[derive(Clone, Copy, Debug, PartialEq, Eq, Structural)]
pub enum ConfidentialityError {
    /// Authentication failed: wrong key, nonce or associated data, or the
    /// ciphertext or tag was tampered with.
    OpenFailed,
    /// Serialized sealed bytes were too short.
    Malformed,
    /// An unwrapped content key did not have exactly 32 bytes.
    BadKeyLength,
}

impl ConfidentialityError {
    pub fn message(&self) -> (r: &'static str)
        ensures
            r@ == match *self {
                ConfidentialityError::OpenFailed => "AEAD open failed: wrong key/nonce/aad or tampered ciphertext"@,
                ConfidentialityError::Malformed => "malformed sealed bytes"@,
                ConfidentialityError::BadKeyLength => "wrapped content key has wrong length"@,
            },
    {
        match self {
            ConfidentialityError::OpenFailed => "AEAD open failed: wrong key/nonce/aad or tampered ciphertext",
            ConfidentialityError::Malformed => "malformed sealed bytes",
            ConfidentialityError::BadKeyLength => "wrapped content key has wrong length",
        }
    }
}

/// `rand_core::OsRng::try_fill_bytes` into a fresh array; `None` when the
/// operating system's source fails. Nothing is promised of the bytes.
#[verifier::external_body]
pub(crate) fn os_random<const N: usize>() -> (r: Option<[u8; N]>) {
    let mut b = [0u8; N];
    match rand_core::OsRng.try_fill_bytes(&mut b) {
        Ok(()) => Some(b),
        Err(_) => None,
    }
}

/// The ciphertext and tag ChaCha20-Poly1305 gives for `pt` under `key`,
/// `nonce` and associated data `aad`.
pub uninterp spec fn aead_seal(key: Seq<u8>, nonce: Seq<u8>, aad: Seq<u8>, pt: Seq<u8>) -> (Seq<u8>, Seq<u8>);

/// `ring`'s ChaCha20-Poly1305 `seal_in_place_separate_tag`: the contract
/// claims the ciphertext and tag are `aead_seal` of the arguments, that the
/// ciphertext is as long as the plaintext, and that sealing succeeds up to
/// the cipher's input limit.
#[verifier::external_body]
fn chacha_seal(key: &[u8; 32], nonce: &[u8; 12], aad: &[u8], pt: &[u8]) -> (r: Option<(Vec<u8>, [u8; 16])>)
    ensures
        r matches Some((c, t)) ==> (c@, t@) == aead_seal(key@, nonce@, aad@, pt@) && c@.len() == pt@.len(),
        pt@.len() <= AEAD_MAX_INPUT_LEN ==> r is Some,
{
    let k = ring::aead::LessSafeKey::new(ring::aead::UnboundKey::new(&ring::aead::CHACHA20_POLY1305, key).ok()?);
    let mut buf = pt.to_vec();
    let tag = k.seal_in_place_separate_tag(ring::aead::Nonce::assume_unique_for_key(*nonce), ring::aead::Aad::from(aad), &mut buf).ok()?;
    let mut t = [0u8; 16];
    t.copy_from_slice(tag.as_ref());
    Some((buf, t))
}

/// Sealing `p` gives the ciphertext `ct` and tag `tag`.
pub open spec fn sealed_to(key: Seq<u8>, nonce: Seq<u8>, aad: Seq<u8>, ct: Seq<u8>, tag: Seq<u8>, p: Seq<u8>) -> bool {
    aead_seal(key, nonce, aad, p) == (ct, tag)
}

/// `ring`'s ChaCha20-Poly1305 `open_in_place_separate_tag`: the contract
/// claims it succeeds exactly on a ciphertext and tag that sealing some
/// plaintext under the same key, nonce and associated data gives, and then
/// returns that plaintext.
#[verifier::external_body]
fn chacha_open(key: &[u8; 32], nonce: &[u8; 12], aad: &[u8], ct: &[u8], tag: &[u8; 16]) -> (r: Option<Vec<u8>>)
    ensures
        r matches Some(v) ==> sealed_to(key@, nonce@, aad@, ct@, tag@, v@),
        r matches Some(v) ==> (forall|p: Seq<u8>| sealed_to(key@, nonce@, aad@, ct@, tag@, p) ==> p == v@),
        r is None ==> (forall|p: Seq<u8>| !sealed_to(key@, nonce@, aad@, ct@, tag@, p)),
{
    let k = ring::aead::LessSafeKey::new(ring::aead::UnboundKey::new(&ring::aead::CHACHA20_POLY1305, key).ok()?);
    let mut buf = ct.to_vec();
    let out = k.open_in_place_separate_tag(
        ring::aead::Nonce::assume_unique_for_key(*nonce),
        ring::aead::Aad::from(aad),
        ring::aead::Tag::from(*tag),
        &mut buf,
        0..,
    ).ok()?;
    Some(out.to_vec())
}

/// A symmetric content key (ChaCha20-Poly1305, 256-bit).
#[derive(Clone, Debug, PartialEq, Eq)]
pub struct ContentKey {
    key: [u8; CK_LEN],
}

/// A detached AEAD output: nonce, ciphertext and tag. On the wire:
/// `nonce ‖ tag ‖ ciphertext`.
#[derive(Clone, Debug, PartialEq, Eq)]
pub struct Sealed {
    pub nonce: [u8; NONCE_LEN],
    pub ciphertext: Vec<u8>,
    pub tag: [u8; TAG_LEN],
}

impl ContentKey {
    /// The key bytes.
    pub closed spec fn key_view(&self) -> Seq<u8> {
        self.key@
    }

    /// A fresh key from the operating system's random source; `None` when
    /// the source fails.
    pub fn generate() -> (r: Option<ContentKey>)
        ensures
            r matches Some(k) ==> k.key_view().len() == CK_LEN,
    {
        match os_random::<32>() {
            Some(key) => Some(ContentKey { key }),
            None => None,
        }
    }

    /// A content key with the given bytes (an unwrapped key, say).
    pub fn from_bytes(key: [u8; CK_LEN]) -> (r: ContentKey)
        ensures
            r.key_view() == key@,
    {
        ContentKey { key }
    }

    /// The raw key bytes; treat them as secret.
    pub fn expose(&self) -> (r: &[u8; CK_LEN])
        ensures
            r@ == self.key_view(),
    {
        &self.key
    }

    /// Seal `plaintext` under this key with a fresh random nonce, binding
    /// `aad`; `None` when the random source fails.
    pub fn seal(&self, plaintext: &[u8], aad: &[u8]) -> (r: Option<Sealed>)
        requires
            plaintext@.len() <= AEAD_MAX_INPUT_LEN,
        ensures
            r matches Some(s) ==> (s.ciphertext@, s.tag@) == aead_seal(self.key_view(), s.nonce@, aad@, plaintext@),
    {
        let nonce = match os_random::<12>() {
            Some(n) => n,
            None => return None,
        };
        match chacha_seal(&self.key, &nonce, aad, plaintext) {
            Some((ciphertext, tag)) => Some(Sealed { nonce, ciphertext, tag }),
            None => {
                proof {
                    assert(false);
                }
                None
            },
        }
    }

    /// Open `sealed` under this key, checking `aad`.
    pub fn open(&self, sealed: &Sealed, aad: &[u8]) -> (r: Result<Vec<u8>, ConfidentialityError>)
        ensures
            r matches Ok(p) ==> aead_seal(self.key_view(), sealed.nonce@, aad@, p@) == (sealed.ciphertext@, sealed.tag@),
            r is Err ==> r == Err::<Vec<u8>, ConfidentialityError>(ConfidentialityError::OpenFailed),
            forall|p: Seq<u8>| #[trigger] sealed_to(self.key_view(), sealed.nonce@, aad@, sealed.ciphertext@, sealed.tag@, p) ==> (r matches Ok(v) && v@ == p),
    {
        match chacha_open(&self.key, &sealed.nonce, aad, sealed.ciphertext.as_slice(), &sealed.tag) {
            Some(p) => Ok(p),
            None => Err(ConfidentialityError::OpenFailed),
        }
    }
}

/// The wire form of a sealed value.
pub open spec fn sealed_bytes(nonce: Seq<u8>, tag: Seq<u8>, ct: Seq<u8>) -> Seq<u8> {
    nonce + tag + ct
}

impl Sealed {
    /// `nonce ‖ tag ‖ ciphertext`.
    pub fn to_bytes(&self) -> (r: Vec<u8>)
        ensures
            r@ == sealed_bytes(self.nonce@, self.tag@, self.ciphertext@),
    {
        let mut out: Vec<u8> = Vec::new();
        crate::tlv::append_bytes(&mut out, self.nonce.as_slice());
        crate::tlv::append_bytes(&mut out, self.tag.as_slice());
        crate::tlv::append_bytes(&mut out, self.ciphertext.as_slice());
        proof {
            assert(out@ =~= sealed_bytes(self.nonce@, self.tag@, self.ciphertext@));
        }
        out
    }

    /// Parse `nonce ‖ tag ‖ ciphertext`; shorter than nonce and tag is
    /// malformed.
    pub fn from_bytes(b: &[u8]) -> (r: Result<Sealed, ConfidentialityError>)
        ensures
            b@.len() < NONCE_LEN + TAG_LEN ==> r == Err::<Sealed, ConfidentialityError>(ConfidentialityError::Malformed),
            b@.len() >= NONCE_LEN + TAG_LEN ==> (r matches Ok(s) && s.nonce@ == b@.subrange(0, 12) && s.tag@ == b@.subrange(12, 28)
                && s.ciphertext@ == b@.skip(28)),
    {
        if b.len() < NONCE_LEN + TAG_LEN {
            return Err(ConfidentialityError::Malformed);
        }
        let mut nonce = [0u8; 12];
        let mut i: usize = 0;
        while i < 12
            invariant
                i <= 12,
                b@.len() >= 28,
                forall|k: int| 0 <= k < i ==> nonce@[k] == b@[k],
            decreases 12 - i,
        {
            nonce[i] = b[i];
            i = i + 1;
        }
        let mut tag = [0u8; 16];
        let mut j: usize = 0;
        while j < 16
            invariant
                j <= 16,
                b@.len() >= 28,
                forall|k: int| 0 <= k < j ==> tag@[k] == b@[12 + k],
            decreases 16 - j,
        {
            tag[j] = b[12 + j];
            j = j + 1;
        }
        let ciphertext = crate::tlv::slice_to_vec(b, 28, b.len());
        proof {
            assert(nonce@ =~= b@.subrange(0, 12));
            assert(tag@ =~= b@.subrange(12, 28));
            assert(b@.subrange(28, b@.len() as int) =~= b@.skip(28));
        }
        Ok(Sealed { nonce, ciphertext, tag })
    }
}

/// Parsing the wire form of a sealed value gives it back.
pub proof fn lemma_sealed_roundtrip(nonce: Seq<u8>, tag: Seq<u8>, ct: Seq<u8>)
    requires
        nonce.len() == NONCE_LEN,
        tag.len() == TAG_LEN,
    ensures
        sealed_bytes(nonce, tag, ct).len() >= NONCE_LEN + TAG_LEN,
        sealed_bytes(nonce, tag, ct).subrange(0, 12) == nonce,
        sealed_bytes(nonce, tag, ct).subrange(12, 28) == tag,
        sealed_bytes(nonce, tag, ct).skip(28) == ct,
{
    let b = sealed_bytes(nonce, tag, ct);
    assert(b.subrange(0, 12) =~= nonce);
    assert(b.subrange(12, 28) =~= tag);
    assert(b.skip(28) =~= ct);
}

/// Wrap a content key under a key-encryption key by sealing its bytes.
pub fn wrap_ck(kek: &ContentKey, ck: &ContentKey, aad: &[u8]) -> (r: Option<Sealed>)
    ensures
        r matches Some(s) ==> (s.ciphertext@, s.tag@) == aead_seal(kek.key_view(), s.nonce@, aad@, ck.key_view()),
{
    kek.seal(ck.expose(), aad)
}

/// Recover a content key wrapped by [`wrap_ck`] under the same key and
/// `aad`.
pub fn unwrap_ck(kek: &ContentKey, wrapped: &Sealed, aad: &[u8]) -> (r: Result<ContentKey, ConfidentialityError>)
    ensures
        forall|p: Seq<u8>| #[trigger] sealed_to(kek.key_view(), wrapped.nonce@, aad@, wrapped.ciphertext@, wrapped.tag@, p) ==> (
            if p.len() == CK_LEN {
                r matches Ok(k) && k.key_view() == p
            } else {
                r == Err::<ContentKey, ConfidentialityError>(ConfidentialityError::BadKeyLength)
            }),
        r matches Ok(k) ==> aead_seal(kek.key_view(), wrapped.nonce@, aad@, k.key_view()) == (wrapped.ciphertext@, wrapped.tag@),
        r matches Err(e) ==> (e == ConfidentialityError::OpenFailed || e == ConfidentialityError::BadKeyLength),
{
    let bytes = match kek.open(wrapped, aad) {
        Ok(b) => b,
        Err(e) => return Err(e),
    };
    if bytes.len() != CK_LEN {
        return Err(ConfidentialityError::BadKeyLength);
    }
    let mut key = [0u8; 32];
    let mut i: usize = 0;
    while i < 32
        invariant
            i <= 32,
            bytes@.len() == 32,
            forall|k: int| 0 <= k < i ==> key@[k] == bytes@[k],
        decreases 32 - i,
    {
        key[i] = bytes[i];
        i = i + 1;
    }
    proof {
        assert(key@ =~= bytes@);
    }
    Ok(ContentKey::from_bytes(key))
}

/// When to rotate a content key: after `max_age_secs`, or after `max_uses`
/// seals, whichever comes first.
#[derive(Clone, Copy, Debug, PartialEq, Eq, Structural)]
pub struct EpochPolicy {
    pub max_age_secs: u64,
    pub max_uses: u64,
}

impl Default for EpochPolicy {
    /// Sixty seconds or ten thousand seals.
    fn default() -> (r: EpochPolicy)
        ensures
            r.max_age_secs == DEFAULT_MAX_EPOCH_AGE_SECS,
            r.max_uses == DEFAULT_MAX_EPOCH_USES,
    {
        EpochPolicy { max_age_secs: DEFAULT_MAX_EPOCH_AGE_SECS, max_uses: DEFAULT_MAX_EPOCH_USES }
    }
}

/// A content key with an epoch identifier and a rotation policy. The caller
/// supplies the time (in seconds) at each seal.
pub struct RotatingKey {
    ck: ContentKey,
    epoch_id: [u8; EPOCH_ID_LEN],
    created_at_secs: u64,
    uses: u64,
    policy: EpochPolicy,
}

/// Whether a key created at `created`, used `uses` times, is stale at `now`.
pub open spec fn stale(policy: EpochPolicy, created: u64, uses: u64, now: u64) -> bool {
    (if now >= created {
        now - created
    } else {
        0
    }) >= policy.max_age_secs || uses >= policy.max_uses
}

impl RotatingKey {
    pub closed spec fn created_at(&self) -> u64 {
        self.created_at_secs
    }

    pub closed spec fn use_count(&self) -> u64 {
        self.uses
    }

    pub closed spec fn policy_of(&self) -> EpochPolicy {
        self.policy
    }

    pub closed spec fn epoch(&self) -> Seq<u8> {
        self.epoch_id@
    }

    pub closed spec fn key(&self) -> ContentKey {
        self.ck
    }

    /// A fresh key and epoch at `now_secs`; `None` when the random source
    /// fails.
    pub fn new(now_secs: u64, policy: EpochPolicy) -> (r: Option<RotatingKey>)
        ensures
            r matches Some(k) ==> k.created_at() == now_secs && k.use_count() == 0 && k.policy_of() == policy,
    {
        let epoch_id = match os_random::<8>() {
            Some(e) => e,
            None => return None,
        };
        let ck = match ContentKey::generate() {
            Some(k) => k,
            None => return None,
        };
        Some(RotatingKey { ck, epoch_id, created_at_secs: now_secs, uses: 0, policy })
    }

    /// The current epoch identifier (it changes at every rotation).
    pub fn epoch_id(&self) -> (r: &[u8; EPOCH_ID_LEN])
        ensures
            r@ == self.epoch(),
    {
        &self.epoch_id
    }

    /// Whether the current key is too old or too used at `now_secs`.
    pub fn is_stale(&self, now_secs: u64) -> (r: bool)
        ensures
            r == stale(self.policy_of(), self.created_at(), self.use_count(), now_secs),
    {
        let age = now_secs.saturating_sub(self.created_at_secs);
        age >= self.policy.max_age_secs || self.uses >= self.policy.max_uses
    }

    /// A new key and epoch, with age and use count reset at `now_secs`
    /// (`true`); when the random source fails nothing changes (`false`).
    pub fn rotate(&mut self, now_secs: u64) -> (r: bool)
        ensures
            r ==> final(self).created_at() == now_secs && final(self).use_count() == 0,
            !r ==> *final(self) == *old(self),
            final(self).policy_of() == old(self).policy_of(),
    {
        let ck = match ContentKey::generate() {
            Some(k) => k,
            None => return false,
        };
        let epoch_id = match os_random::<8>() {
            Some(e) => e,
            None => return false,
        };
        self.ck = ck;
        self.epoch_id = epoch_id;
        self.created_at_secs = now_secs;
        self.uses = 0;
        true
    }

    /// Seal `plaintext`, rotating first if the key is stale at `now_secs`;
    /// the epoch in force is returned with the sealed value. `None` when the
    /// random source fails.
    pub fn seal(&mut self, now_secs: u64, plaintext: &[u8], aad: &[u8]) -> (r: Option<([u8; EPOCH_ID_LEN], Sealed)>)
        requires
            plaintext@.len() <= AEAD_MAX_INPUT_LEN,
        ensures
            final(self).policy_of() == old(self).policy_of(),
            r matches Some((e, sd)) ==> {
                &&& if stale(old(self).policy_of(), old(self).created_at(), old(self).use_count(), now_secs) {
                    final(self).created_at() == now_secs && final(self).use_count() == 1
                } else {
                    final(self).created_at() == old(self).created_at() && final(self).use_count() == old(self).use_count()
                        + 1 && final(self).epoch() == old(self).epoch() && final(self).key() == old(self).key()
                }
                &&& e@ == final(self).epoch()
                &&& !stale(old(self).policy_of(), old(self).created_at(), old(self).use_count(), now_secs) ==> e@ == old(
                    self,
                ).epoch()
                &&& (sd.ciphertext@, sd.tag@) == aead_seal(final(self).key().key_view(), sd.nonce@, aad@, plaintext@)
            },
    {
        if self.is_stale(now_secs) {
            if !self.rotate(now_secs) {
                return None;
            }
        }
        let sealed = match self.ck.seal(plaintext, aad) {
            Some(sd) => sd,
            None => return None,
        };
        self.uses = self.uses + 1;
        Some((self.epoch_id, sealed))
    }

    /// The current content key.
    pub fn content_key(&self) -> (r: &ContentKey)
        ensures
            *r == self.key(),
    {
        &self.ck
    }
}

} // verus!
