//! Certificate-chain validation: from a signed packet, walk certificate to
//! issuer until a trust anchor of the governing context ends the walk,
//! checking every signature on the way, the validity period of every
//! certificate, the revocation list, cycles, and a depth limit.
//!
//! Certificates are looked up in a cache the caller holds. A missing one
//! makes the walk `Pending` on its name; the caller may fetch it, add it to
//! the cache and walk again.

use vstd::prelude::*;

use crate::ca::Certificate;
use crate::digest::{sha256, sha256_of};
use crate::name::{ComponentView, Name};
use crate::name_uri::spec_uri_text;
use crate::signer::{signature_verdict, verify_by_sig_type, TrustError, SIGNATURE_TYPE_DIGEST_SHA256};
use crate::text::{push_text, string_from_static};
use crate::trust_schema::{rules_view, schema_allows, TrustSchema};

verus! {

/// What a validation context provides: the trust schema, the anchors and
/// the revoked key names.
pub struct ChainContext {
    pub schema: TrustSchema,
    pub anchors: Vec<Certificate>,
    pub revoked: Vec<Name>,
}

/// The end of a chain walk.
#[derive(Debug, Clone, PartialEq, Eq)]
pub enum WalkOutcome {
    /// The chain reached a trust anchor; the key names walked, ending with
    /// the anchor's.
    Anchored(Vec<Name>),
    /// The certificate of this key is not in the cache.
    Pending(Name),
    /// The chain is invalid.
    Invalid(TrustError),
}

/// An error as plain values.
pub enum ErrView {
    InvalidSignature,
    SchemaMismatch,
    ChainCycle(Seq<char>),
    Revoked(Seq<char>),
    CertNotFound(Seq<char>),
    ChainTooDeep(usize),
    Unsupported(Seq<char>),
    Other,
}

/// The message of an error given as plain values (that of
/// [`crate::signer::trust_error_text`]).
pub open spec fn err_text(e: ErrView) -> Seq<char> {
    match e {
        ErrView::InvalidSignature => "invalid signature"@,
        ErrView::SchemaMismatch => "trust schema mismatch"@,
        ErrView::ChainCycle(n) => "certificate chain cycle at "@ + n,
        ErrView::Revoked(n) => "certificate revoked: "@ + n,
        ErrView::CertNotFound(n) => "certificate not found: "@ + n,
        ErrView::ChainTooDeep(limit) => "certificate chain too deep (limit "@ + crate::text::decimal_text(limit as nat)
            + ")"@,
        ErrView::Unsupported(m) => "unsupported: "@ + m,
        ErrView::Other => "key error"@,
    }
}

/// A walk's end as plain values.
pub enum WalkView {
    Anchored(Seq<Seq<ComponentView>>),
    Pending(Seq<ComponentView>),
    Invalid(ErrView),
}

pub open spec fn err_view(e: TrustError) -> ErrView {
    match e {
        TrustError::InvalidSignature => ErrView::InvalidSignature,
        TrustError::SchemaMismatch => ErrView::SchemaMismatch,
        TrustError::ChainCycle { name } => ErrView::ChainCycle(name@),
        TrustError::Revoked { name } => ErrView::Revoked(name@),
        TrustError::CertNotFound { name } => ErrView::CertNotFound(name@),
        TrustError::ChainTooDeep { limit } => ErrView::ChainTooDeep(limit),
        TrustError::Unsupported(m) => ErrView::Unsupported(m@),
        _ => ErrView::Other,
    }
}

pub open spec fn names_view(v: Seq<Name>) -> Seq<Seq<ComponentView>> {
    v.map_values(|n: Name| n@)
}

pub open spec fn walk_view(w: WalkOutcome) -> WalkView {
    match w {
        WalkOutcome::Anchored(v) => WalkView::Anchored(names_view(v@)),
        WalkOutcome::Pending(n) => WalkView::Pending(n@),
        WalkOutcome::Invalid(e) => WalkView::Invalid(err_view(e)),
    }
}

/// The first certificate named `key`.
pub open spec fn cert_named(certs: Seq<Certificate>, key: Seq<ComponentView>) -> Option<Certificate>
    decreases certs.len(),
{
    if certs.len() == 0 {
        None
    } else if certs[0].name@ == key {
        Some(certs[0])
    } else {
        cert_named(certs.drop_first(), key)
    }
}

/// Whether `key` is among `names`.
pub open spec fn listed(names: Seq<Seq<ComponentView>>, key: Seq<ComponentView>) -> bool {
    exists|i: int| 0 <= i < names.len() && names[i] == key
}

/// A certificate is valid at `now` (nanoseconds) when `now` lies within
/// its validity period.
pub open spec fn valid_at(c: Certificate, now: u64) -> bool {
    c.valid_from <= now && now <= c.valid_until
}

/// What checking a signature says: `None` when it verifies, or the error.
pub open spec fn signature_error(sig_type: u64, region: Seq<u8>, sig: Seq<u8>, key: Seq<u8>) -> Option<ErrView> {
    match signature_verdict(sig_type, region, sig, key) {
        Ok(true) => None,
        Ok(false) => Some(ErrView::InvalidSignature),
        Err(m) => Some(ErrView::Unsupported(m)),
    }
}

/// The walk from the signature `sig` (of type `sig_type`) over `region` by
/// `key`, with `fuel` hops left, having passed the keys `seen` and walked
/// `chain`.
pub open spec fn walk(
    anchors: Seq<Certificate>,
    revoked: Seq<Seq<ComponentView>>,
    cache: Seq<Certificate>,
    key: Seq<ComponentView>,
    region: Seq<u8>,
    sig: Seq<u8>,
    sig_type: u64,
    now: u64,
    fuel: nat,
    limit: usize,
    seen: Seq<Seq<ComponentView>>,
    chain: Seq<Seq<ComponentView>>,
) -> WalkView
    decreases fuel,
{
    if fuel == 0 {
        WalkView::Invalid(ErrView::ChainTooDeep(limit))
    } else if listed(seen, key) {
        WalkView::Invalid(ErrView::ChainCycle(spec_uri_text(key)))
    } else if listed(revoked, key) {
        WalkView::Invalid(ErrView::Revoked(spec_uri_text(key)))
    } else {
        match cert_named(anchors, key) {
            Some(a) => if !valid_at(a, now) {
                WalkView::Invalid(ErrView::CertNotFound("expired trust anchor: "@ + spec_uri_text(key)))
            } else {
                match signature_error(sig_type, region, sig, a.public_key@) {
                    None => WalkView::Anchored(chain.push(key)),
                    Some(e) => WalkView::Invalid(e),
                }
            },
            None => match cert_named(cache, key) {
                None => WalkView::Pending(key),
                Some(c) => if !valid_at(c, now) {
                    WalkView::Invalid(ErrView::CertNotFound("expired or not-yet-valid: "@ + spec_uri_text(key)))
                } else {
                    match signature_error(sig_type, region, sig, c.public_key@) {
                        Some(e) => WalkView::Invalid(e),
                        None => match c.issuer {
                            None => WalkView::Invalid(
                                ErrView::CertNotFound("cert has no issuer: "@ + spec_uri_text(c.name@)),
                            ),
                            Some(issuer) => match c.signed_region {
                                None => WalkView::Invalid(
                                    ErrView::CertNotFound("cert missing signed region: "@ + spec_uri_text(c.name@)),
                                ),
                                Some(sr) => match c.sig_value {
                                    None => WalkView::Invalid(
                                        ErrView::CertNotFound("cert missing sig value: "@ + spec_uri_text(c.name@)),
                                    ),
                                    Some(sv) => walk(
                                        anchors,
                                        revoked,
                                        cache,
                                        issuer@,
                                        sr@,
                                        sv@,
                                        c.sig_type,
                                        now,
                                        (fuel - 1) as nat,
                                        limit,
                                        seen.push(key),
                                        chain.push(key),
                                    ),
                                },
                            },
                        },
                    }
                },
            },
        }
    }
}

/// The walk for a packet named `name`, first checking that the schema
/// lets its key sign it.
pub open spec fn chain_verdict(
    ctx: ChainContext,
    cache: Seq<Certificate>,
    name: Seq<ComponentView>,
    first_key: Seq<ComponentView>,
    region: Seq<u8>,
    sig: Seq<u8>,
    sig_type: u64,
    now: u64,
    max_chain: usize,
) -> WalkView {
    if !schema_allows(rules_view(ctx.schema.rules@), name, first_key) {
        WalkView::Invalid(ErrView::SchemaMismatch)
    } else {
        walk(
            ctx.anchors@,
            names_view(ctx.revoked@),
            cache,
            first_key,
            region,
            sig,
            sig_type,
            now,
            max_chain as nat,
            max_chain,
            Seq::empty(),
            Seq::empty(),
        )
    }
}

/// The position of the first certificate named `key`.
pub(crate) fn find_cert(certs: &Vec<Certificate>, key: &Name) -> (r: Option<usize>)
    ensures
        match cert_named(certs@, key@) {
            None => r is None,
            Some(c) => r matches Some(i) && i < certs@.len() && certs@[i as int] == c,
        },
{
    let mut i: usize = 0;
    proof {
        assert(certs@.skip(0) =~= certs@);
    }
    while i < certs.len()
        invariant
            i <= certs@.len(),
            cert_named(certs@, key@) == cert_named(certs@.skip(i as int), key@),
        decreases certs@.len() - i,
    {
        proof {
            assert(certs@.skip(i as int)[0] == certs@[i as int]);
            assert(certs@.skip(i as int).drop_first() =~= certs@.skip(i + 1));
        }
        if certs[i].name.same_as(key) {
            return Some(i);
        }
        i = i + 1;
    }
    None
}

/// Whether `key` is among `names`.
fn is_listed(names: &Vec<Name>, key: &Name) -> (r: bool)
    ensures
        r == listed(names_view(names@), key@),
{
    let ghost v = names_view(names@);
    let mut i: usize = 0;
    while i < names.len()
        invariant
            i <= names@.len(),
            v == names_view(names@),
            forall|j: int| 0 <= j < i ==> v[j] != key@,
        decreases names@.len() - i,
    {
        if names[i].same_as(key) {
            proof {
                assert(v[i as int] == key@);
            }
            return true;
        }
        i = i + 1;
    }
    false
}

fn cert_not_found(prefix: &str, name: &Name) -> (r: TrustError)
    ensures
        err_view(r) == ErrView::CertNotFound(prefix@ + spec_uri_text(name@)),
{
    let mut m = string_from_static(prefix);
    push_text(&mut m, name.to_uri().as_str());
    TrustError::CertNotFound { name: m }
}

/// Check a signature: `None` when it verifies.
fn check_signature(sig_type: u64, region: &[u8], sig: &[u8], key: &[u8]) -> (r: Option<TrustError>)
    ensures
        match signature_error(sig_type, region@, sig@, key@) {
            None => r is None,
            Some(e) => r matches Some(f) && err_view(f) == e,
        },
{
    match verify_by_sig_type(sig_type, region, sig, key) {
        Ok(true) => None,
        Ok(false) => Some(TrustError::InvalidSignature),
        Err(m) => Some(TrustError::Unsupported(m)),
    }
}

/// Walk the chain of the signature `first_sig` (of type `first_sig_type`)
/// over `first_region` by `first_key`, for a packet named `name`.
#[verifier::rlimit(60)]
#[verifier::spinoff_prover]
pub fn walk_to_anchor(
    ctx: &ChainContext,
    cache: &Vec<Certificate>,
    name: &Name,
    first_key: &Name,
    first_region: &[u8],
    first_sig: &[u8],
    first_sig_type: u64,
    now: u64,
    max_chain: usize,
) -> (r: WalkOutcome)
    ensures
        walk_view(r) == chain_verdict(
            *ctx,
            cache@,
            name@,
            first_key@,
            first_region@,
            first_sig@,
            first_sig_type,
            now,
            max_chain,
        ),
{
    if !ctx.schema.allows(name, first_key) {
        return WalkOutcome::Invalid(TrustError::SchemaMismatch);
    }
    let ghost anchors = ctx.anchors@;
    let ghost revoked = names_view(ctx.revoked@);
    let ghost target = chain_verdict(
        *ctx,
        cache@,
        name@,
        first_key@,
        first_region@,
        first_sig@,
        first_sig_type,
        now,
        max_chain,
    );
    let mut seen: Vec<Name> = Vec::new();
    let mut chain: Vec<Name> = Vec::new();
    let mut key = first_key.copy();
    let mut region: Vec<u8> = crate::tlv::slice_to_vec(first_region, 0, first_region.len());
    let mut sig: Vec<u8> = crate::tlv::slice_to_vec(first_sig, 0, first_sig.len());
    let mut sig_type = first_sig_type;
    let mut depth: usize = 0;
    proof {
        assert(region@ =~= first_region@);
        assert(sig@ =~= first_sig@);
        assert(names_view(seen@) =~= Seq::<Seq<ComponentView>>::empty());
        assert(names_view(chain@) =~= Seq::<Seq<ComponentView>>::empty());
    }
    while depth < max_chain
        invariant
            depth <= max_chain,
            target == chain_verdict(
                *ctx,
                cache@,
                name@,
                first_key@,
                first_region@,
                first_sig@,
                first_sig_type,
                now,
                max_chain,
            ),
            schema_allows(rules_view(ctx.schema.rules@), name@, first_key@),
            anchors == ctx.anchors@,
            revoked == names_view(ctx.revoked@),
            target == walk(
                anchors,
                revoked,
                cache@,
                key@,
                region@,
                sig@,
                sig_type,
                now,
                (max_chain - depth) as nat,
                max_chain,
                names_view(seen@),
                names_view(chain@),
            ),
        decreases max_chain - depth,
    {
        if is_listed(&seen, &key) {
            return WalkOutcome::Invalid(TrustError::ChainCycle { name: key.to_uri() });
        }
        if is_listed(&ctx.revoked, &key) {
            return WalkOutcome::Invalid(TrustError::Revoked { name: key.to_uri() });
        }
        match find_cert(&ctx.anchors, &key) {
            Some(ai) => {
                let a = &ctx.anchors[ai];
                if !(a.valid_from <= now && now <= a.valid_until) {
                    return WalkOutcome::Invalid(cert_not_found("expired trust anchor: ", &key));
                }
                match check_signature(sig_type, region.as_slice(), sig.as_slice(), a.public_key.as_slice()) {
                    None => {
                        let ghost before = names_view(chain@);
                        chain.push(key);
                        proof {
                            assert(names_view(chain@) =~= before.push(chain@.last()@));
                        }
                        return WalkOutcome::Anchored(chain);
                    },
                    Some(e) => return WalkOutcome::Invalid(e),
                }
            },
            None => {},
        }
        let ci = match find_cert(cache, &key) {
            None => return WalkOutcome::Pending(key),
            Some(ci) => ci,
        };
        let c = &cache[ci];
        if !(c.valid_from <= now && now <= c.valid_until) {
            return WalkOutcome::Invalid(cert_not_found("expired or not-yet-valid: ", &key));
        }
        match check_signature(sig_type, region.as_slice(), sig.as_slice(), c.public_key.as_slice()) {
            Some(e) => return WalkOutcome::Invalid(e),
            None => {},
        }
        let issuer = match &c.issuer {
            None => return WalkOutcome::Invalid(cert_not_found("cert has no issuer: ", &c.name)),
            Some(i) => i,
        };
        let sr = match &c.signed_region {
            None => return WalkOutcome::Invalid(cert_not_found("cert missing signed region: ", &c.name)),
            Some(v) => v,
        };
        let sv = match &c.sig_value {
            None => return WalkOutcome::Invalid(cert_not_found("cert missing sig value: ", &c.name)),
            Some(v) => v,
        };
        let ghost seen_before = names_view(seen@);
        let ghost chain_before = names_view(chain@);
        let ghost k = key@;
        seen.push(key.copy());
        chain.push(key);
        proof {
            assert(names_view(seen@) =~= seen_before.push(k));
            assert(names_view(chain@) =~= chain_before.push(k));
        }
        key = issuer.copy();
        region = crate::tlv::slice_to_vec(sr.as_slice(), 0, sr.len());
        sig = crate::tlv::slice_to_vec(sv.as_slice(), 0, sv.len());
        proof {
            assert(region@ =~= sr@);
            assert(sig@ =~= sv@);
        }
        sig_type = c.sig_type;
        depth = depth + 1;
    }
    WalkOutcome::Invalid(TrustError::ChainTooDeep { limit: max_chain })
}

/// How a packet was found to be trustworthy.
#[derive(Debug, Clone, PartialEq, Eq)]
pub enum TrustPath {
    /// A bare SHA-256 digest (integrity only).
    DigestSha256,
    /// A certificate chain to an anchor.
    CertChain(Vec<Name>),
}

/// The outcome of validating a packet.
#[derive(Debug, Clone, PartialEq, Eq)]
pub enum ChainValidation {
    Valid(TrustPath),
    Pending(Name),
    Invalid(TrustError),
}

/// Validate a signed packet named `name`: a `DigestSha256` signature must
/// be the digest of the signed region; any other needs a key locator naming
/// the first key of a chain that walks to an anchor.
pub fn validate_chain(
    ctx: &ChainContext,
    cache: &Vec<Certificate>,
    name: &Name,
    sig_type: u64,
    key_locator: Option<&Name>,
    region: &[u8],
    sig: &[u8],
    now: u64,
    max_chain: usize,
) -> (r: ChainValidation)
    ensures
        sig_type == SIGNATURE_TYPE_DIGEST_SHA256 ==> (if sha256_of(region@) == sig@ {
            r == ChainValidation::Valid(TrustPath::DigestSha256)
        } else {
            r == ChainValidation::Invalid(TrustError::InvalidSignature)
        }),
        sig_type != SIGNATURE_TYPE_DIGEST_SHA256 && key_locator is None ==> r == ChainValidation::Invalid(
            TrustError::InvalidSignature,
        ),
        sig_type != SIGNATURE_TYPE_DIGEST_SHA256 && key_locator is Some ==> match chain_verdict(
            *ctx,
            cache@,
            name@,
            key_locator.unwrap()@,
            region@,
            sig@,
            sig_type,
            now,
            max_chain,
        ) {
            WalkView::Anchored(c) => r matches ChainValidation::Valid(TrustPath::CertChain(v)) && names_view(v@) == c,
            WalkView::Pending(k) => r matches ChainValidation::Pending(n) && n@ == k,
            WalkView::Invalid(e) => r matches ChainValidation::Invalid(f) && err_view(f) == e,
        },
{
    if sig_type == SIGNATURE_TYPE_DIGEST_SHA256 {
        let h = sha256(region);
        if crate::name::bytes_eq(&h, sig) {
            return ChainValidation::Valid(TrustPath::DigestSha256);
        }
        return ChainValidation::Invalid(TrustError::InvalidSignature);
    }
    let first_key = match key_locator {
        None => return ChainValidation::Invalid(TrustError::InvalidSignature),
        Some(k) => k,
    };
    match walk_to_anchor(ctx, cache, name, first_key, region, sig, sig_type, now, max_chain) {
        WalkOutcome::Anchored(c) => ChainValidation::Valid(TrustPath::CertChain(c)),
        WalkOutcome::Pending(n) => ChainValidation::Pending(n),
        WalkOutcome::Invalid(e) => ChainValidation::Invalid(e),
    }
}


/// The outcome of validating a signed Interest.
#[derive(Debug, Clone, PartialEq, Eq)]
pub enum InterestValidation {
    Valid,
    Pending(Name),
    Invalid(TrustError),
}

/// Validate a signed Interest named `name`: a digest signature is checked
/// as such; any other needs a key locator naming the first key of a chain
/// that walks to an anchor (an unknown self-signed key is refused, not
/// trusted).
pub fn validate_interest_chain(
    ctx: &ChainContext,
    cache: &Vec<Certificate>,
    name: &Name,
    sig_type: u64,
    key_locator: Option<&Name>,
    region: &[u8],
    sig: &[u8],
    now: u64,
    max_chain: usize,
) -> (r: InterestValidation)
    ensures
        sig_type == SIGNATURE_TYPE_DIGEST_SHA256 ==> (match signature_error(sig_type, region@, sig@, Seq::empty()) {
            None => r == InterestValidation::Valid,
            Some(e) => r matches InterestValidation::Invalid(f) && err_view(f) == e,
        }),
        sig_type != SIGNATURE_TYPE_DIGEST_SHA256 && key_locator is None ==> r == InterestValidation::Invalid(
            TrustError::InvalidSignature,
        ),
        sig_type != SIGNATURE_TYPE_DIGEST_SHA256 && key_locator is Some ==> match chain_verdict(
            *ctx,
            cache@,
            name@,
            key_locator.unwrap()@,
            region@,
            sig@,
            sig_type,
            now,
            max_chain,
        ) {
            WalkView::Anchored(_) => r == InterestValidation::Valid,
            WalkView::Pending(k) => r matches InterestValidation::Pending(n) && n@ == k,
            WalkView::Invalid(e) => r matches InterestValidation::Invalid(f) && err_view(f) == e,
        },
{
    if sig_type == SIGNATURE_TYPE_DIGEST_SHA256 {
        let empty: [u8; 0] = [];
        return match check_signature(sig_type, region, sig, &empty) {
            None => InterestValidation::Valid,
            Some(e) => InterestValidation::Invalid(e),
        };
    }
    let first_key = match key_locator {
        None => return InterestValidation::Invalid(TrustError::InvalidSignature),
        Some(k) => k,
    };
    match walk_to_anchor(ctx, cache, name, first_key, region, sig, sig_type, now, max_chain) {
        WalkOutcome::Anchored(_) => InterestValidation::Valid,
        WalkOutcome::Pending(n) => InterestValidation::Pending(n),
        WalkOutcome::Invalid(e) => InterestValidation::Invalid(e),
    }
}

/// A validation that anchors ends at a trust anchor of the context, walks
/// at most the depth limit of keys, and passes no revoked key.
pub proof fn lemma_anchored_chain(
    ctx: ChainContext,
    cache: Seq<Certificate>,
    name: Seq<ComponentView>,
    first_key: Seq<ComponentView>,
    region: Seq<u8>,
    sig: Seq<u8>,
    sig_type: u64,
    now: u64,
    max_chain: usize,
)
    requires
        chain_verdict(ctx, cache, name, first_key, region, sig, sig_type, now, max_chain) is Anchored,
    ensures
        ({
            let c = chain_verdict(ctx, cache, name, first_key, region, sig, sig_type, now, max_chain)->Anchored_0;
            &&& 0 < c.len() <= max_chain
            &&& cert_named(ctx.anchors@, c.last()) is Some
            &&& forall|i: int| 0 <= i < c.len() ==> !listed(names_view(ctx.revoked@), #[trigger] c[i])
        }),
{
    lemma_anchored_walk(
        ctx.anchors@,
        names_view(ctx.revoked@),
        cache,
        first_key,
        region,
        sig,
        sig_type,
        now,
        max_chain as nat,
        max_chain,
        Seq::empty(),
        Seq::empty(),
    );
}

/// An anchored walk ends at a trust anchor, walked no more than the depth
/// limit of hops, and passed no revoked key.
pub proof fn lemma_anchored_walk(
    anchors: Seq<Certificate>,
    revoked: Seq<Seq<ComponentView>>,
    cache: Seq<Certificate>,
    key: Seq<ComponentView>,
    region: Seq<u8>,
    sig: Seq<u8>,
    sig_type: u64,
    now: u64,
    fuel: nat,
    limit: usize,
    seen: Seq<Seq<ComponentView>>,
    chain: Seq<Seq<ComponentView>>,
)
    requires
        walk(anchors, revoked, cache, key, region, sig, sig_type, now, fuel, limit, seen, chain) is Anchored,
        forall|i: int| 0 <= i < chain.len() ==> !listed(revoked, #[trigger] chain[i]),
    ensures
        ({
            let c = walk(anchors, revoked, cache, key, region, sig, sig_type, now, fuel, limit, seen, chain)->Anchored_0;
            &&& c.len() > chain.len()
            &&& c.len() <= chain.len() + fuel
            &&& cert_named(anchors, c.last()) is Some
            &&& forall|i: int| 0 <= i < c.len() ==> !listed(revoked, #[trigger] c[i])
        }),
    decreases fuel,
{
    if fuel > 0 && !listed(seen, key) && !listed(revoked, key) {
        match cert_named(anchors, key) {
            Some(a) => {
                let c = chain.push(key);
                assert forall|i: int| 0 <= i < c.len() implies !listed(revoked, #[trigger] c[i]) by {
                    if i < chain.len() {
                        assert(c[i] == chain[i]);
                    }
                }
            },
            None => {
                let c = cert_named(cache, key).unwrap();
                let issuer = c.issuer.unwrap();
                let sr = c.signed_region.unwrap();
                let sv = c.sig_value.unwrap();
                let next = chain.push(key);
                assert forall|i: int| 0 <= i < next.len() implies !listed(revoked, #[trigger] next[i]) by {
                    if i < chain.len() {
                        assert(next[i] == chain[i]);
                    }
                }
                lemma_anchored_walk(
                    anchors,
                    revoked,
                    cache,
                    issuer@,
                    sr@,
                    sv@,
                    c.sig_type,
                    now,
                    (fuel - 1) as nat,
                    limit,
                    seen.push(key),
                    next,
                );
            },
        }
    }
}


/// The certificate a walk reads for `key`: the trust anchor of that name,
/// or else the cached certificate.
pub open spec fn walked_cert(anchors: Seq<Certificate>, cache: Seq<Certificate>, key: Seq<ComponentView>) -> Option<Certificate> {
    match cert_named(anchors, key) {
        Some(a) => Some(a),
        None => cert_named(cache, key),
    }
}

/// Every key of an anchored walk names a certificate (anchor or cached)
/// whose validity period contains `now`: an expired or not-yet-valid
/// certificate never lets a walk anchor.
pub proof fn lemma_anchored_walk_current(
    anchors: Seq<Certificate>,
    revoked: Seq<Seq<ComponentView>>,
    cache: Seq<Certificate>,
    key: Seq<ComponentView>,
    region: Seq<u8>,
    sig: Seq<u8>,
    sig_type: u64,
    now: u64,
    fuel: nat,
    limit: usize,
    seen: Seq<Seq<ComponentView>>,
    chain: Seq<Seq<ComponentView>>,
)
    requires
        walk(anchors, revoked, cache, key, region, sig, sig_type, now, fuel, limit, seen, chain) is Anchored,
        forall|i: int| 0 <= i < chain.len() ==> (walked_cert(anchors, cache, #[trigger] chain[i]) matches Some(x)
            && x.valid_from <= now && now <= x.valid_until),
    ensures
        ({
            let c = walk(anchors, revoked, cache, key, region, sig, sig_type, now, fuel, limit, seen, chain)->Anchored_0;
            forall|i: int| 0 <= i < c.len() ==> (walked_cert(anchors, cache, #[trigger] c[i]) matches Some(x)
                && x.valid_from <= now && now <= x.valid_until)
        }),
    decreases fuel,
{
    if fuel > 0 && !listed(seen, key) && !listed(revoked, key) {
        let next = chain.push(key);
        match cert_named(anchors, key) {
            Some(a) => {
                assert forall|i: int| 0 <= i < next.len() implies (walked_cert(anchors, cache, #[trigger] next[i]) matches Some(
                    x,
                ) && x.valid_from <= now && now <= x.valid_until) by {
                    if i < chain.len() {
                        assert(next[i] == chain[i]);
                    }
                }
            },
            None => {
                let c = cert_named(cache, key).unwrap();
                let issuer = c.issuer.unwrap();
                let sr = c.signed_region.unwrap();
                let sv = c.sig_value.unwrap();
                assert forall|i: int| 0 <= i < next.len() implies (walked_cert(anchors, cache, #[trigger] next[i]) matches Some(
                    x,
                ) && x.valid_from <= now && now <= x.valid_until) by {
                    if i < chain.len() {
                        assert(next[i] == chain[i]);
                    }
                }
                lemma_anchored_walk_current(
                    anchors,
                    revoked,
                    cache,
                    issuer@,
                    sr@,
                    sv@,
                    c.sig_type,
                    now,
                    (fuel - 1) as nat,
                    limit,
                    seen.push(key),
                    next,
                );
            },
        }
    }
}

/// A validation that anchors read only certificates valid at `now`: each
/// key of its chain names a trust anchor or cached certificate whose
/// validity period contains `now`.
pub proof fn lemma_anchored_chain_current(
    ctx: ChainContext,
    cache: Seq<Certificate>,
    name: Seq<ComponentView>,
    first_key: Seq<ComponentView>,
    region: Seq<u8>,
    sig: Seq<u8>,
    sig_type: u64,
    now: u64,
    max_chain: usize,
)
    requires
        chain_verdict(ctx, cache, name, first_key, region, sig, sig_type, now, max_chain) is Anchored,
    ensures
        ({
            let c = chain_verdict(ctx, cache, name, first_key, region, sig, sig_type, now, max_chain)->Anchored_0;
            forall|i: int| 0 <= i < c.len() ==> (walked_cert(ctx.anchors@, cache, #[trigger] c[i]) matches Some(x)
                && x.valid_from <= now && now <= x.valid_until)
        }),
{
    lemma_anchored_walk_current(
        ctx.anchors@,
        names_view(ctx.revoked@),
        cache,
        first_key,
        region,
        sig,
        sig_type,
        now,
        max_chain as nat,
        max_chain,
        Seq::empty(),
        Seq::empty(),
    );
}

/// A link of a walked chain is signed: the certificate read for `prior`
/// names `next` as its issuer, and its signed region carries a signature
/// that verifies under the key of the certificate read for `next`.
pub open spec fn link_signed(
    anchors: Seq<Certificate>,
    cache: Seq<Certificate>,
    prior: Seq<ComponentView>,
    next: Seq<ComponentView>,
) -> bool {
    &&& walked_cert(anchors, cache, prior) matches Some(p)
    &&& walked_cert(anchors, cache, next) matches Some(n)
    &&& p.issuer matches Some(iss)
    &&& iss@ == next
    &&& p.signed_region matches Some(sr)
    &&& p.sig_value matches Some(sv)
    &&& signature_verdict(p.sig_type, sr@, sv@, n.public_key@) == Ok::<bool, Seq<char>>(true)
}

/// An anchored walk extends the chain it was given with `key` first; the
/// signature it started from verifies under the key of `key`'s
/// certificate, and each later key issued and signed the certificate
/// before it.
pub proof fn lemma_anchored_walk_signed(
    anchors: Seq<Certificate>,
    revoked: Seq<Seq<ComponentView>>,
    cache: Seq<Certificate>,
    key: Seq<ComponentView>,
    region: Seq<u8>,
    sig: Seq<u8>,
    sig_type: u64,
    now: u64,
    fuel: nat,
    limit: usize,
    seen: Seq<Seq<ComponentView>>,
    chain: Seq<Seq<ComponentView>>,
)
    requires
        walk(anchors, revoked, cache, key, region, sig, sig_type, now, fuel, limit, seen, chain) is Anchored,
    ensures
        ({
            let c = walk(anchors, revoked, cache, key, region, sig, sig_type, now, fuel, limit, seen, chain)->Anchored_0;
            &&& c.len() > chain.len()
            &&& forall|i: int| 0 <= i < chain.len() ==> #[trigger] c[i] == chain[i]
            &&& c[chain.len() as int] == key
            &&& walked_cert(anchors, cache, key) matches Some(k)
            &&& signature_verdict(sig_type, region, sig, k.public_key@) == Ok::<bool, Seq<char>>(true)
            &&& forall|i: int| chain.len() < i < c.len() ==> link_signed(anchors, cache, c[i - 1], #[trigger] c[i])
        }),
    decreases fuel,
{
    if fuel > 0 && !listed(seen, key) && !listed(revoked, key) {
        match cert_named(anchors, key) {
            Some(a) => {
                let c = chain.push(key);
                assert(c[chain.len() as int] == key);
            },
            None => {
                let c = cert_named(cache, key).unwrap();
                let issuer = c.issuer.unwrap();
                let sr = c.signed_region.unwrap();
                let sv = c.sig_value.unwrap();
                let next = chain.push(key);
                lemma_anchored_walk_signed(
                    anchors,
                    revoked,
                    cache,
                    issuer@,
                    sr@,
                    sv@,
                    c.sig_type,
                    now,
                    (fuel - 1) as nat,
                    limit,
                    seen.push(key),
                    next,
                );
                let r = walk(anchors, revoked, cache, issuer@, sr@, sv@, c.sig_type, now, (fuel - 1) as nat, limit, seen.push(key), next)->Anchored_0;
                assert forall|i: int| 0 <= i < chain.len() implies #[trigger] r[i] == chain[i] by {
                    assert(r[i] == next[i]);
                }
                assert(r[chain.len() as int] == next[chain.len() as int]);
                assert(link_signed(anchors, cache, r[chain.len() as int], r[chain.len() + 1int]));
            },
        }
    }
}

/// A validation that anchors is signed all the way: the packet's
/// signature verifies under the first key's certificate, and each later
/// key of the chain issued and signed the certificate before it.
pub proof fn lemma_anchored_chain_signed(
    ctx: ChainContext,
    cache: Seq<Certificate>,
    name: Seq<ComponentView>,
    first_key: Seq<ComponentView>,
    region: Seq<u8>,
    sig: Seq<u8>,
    sig_type: u64,
    now: u64,
    max_chain: usize,
)
    requires
        chain_verdict(ctx, cache, name, first_key, region, sig, sig_type, now, max_chain) is Anchored,
    ensures
        ({
            let c = chain_verdict(ctx, cache, name, first_key, region, sig, sig_type, now, max_chain)->Anchored_0;
            &&& c[0] == first_key
            &&& walked_cert(ctx.anchors@, cache, first_key) matches Some(k)
            &&& signature_verdict(sig_type, region, sig, k.public_key@) == Ok::<bool, Seq<char>>(true)
            &&& forall|i: int| 0 < i < c.len() ==> link_signed(ctx.anchors@, cache, c[i - 1], #[trigger] c[i])
        }),
{
    lemma_anchored_walk_signed(
        ctx.anchors@,
        names_view(ctx.revoked@),
        cache,
        first_key,
        region,
        sig,
        sig_type,
        now,
        max_chain as nat,
        max_chain,
        Seq::empty(),
        Seq::empty(),
    );
}

/// What a walk reads of a trust anchor (name, key, validity period) is the
/// same in both.
pub open spec fn anchor_agrees(x: Certificate, y: Certificate) -> bool {
    x.name@ == y.name@ && x.public_key@ == y.public_key@ && x.valid_from == y.valid_from && x.valid_until
        == y.valid_until
}

/// Two anchor lists agree, anchor by anchor.
pub open spec fn anchors_agree(a: Seq<Certificate>, b: Seq<Certificate>) -> bool {
    a.len() == b.len() && forall|i: int| 0 <= i < a.len() ==> anchor_agrees(#[trigger] a[i], b[i])
}

/// Looking a key up in agreeing anchor lists finds agreeing anchors.
pub proof fn lemma_cert_named_agree(a: Seq<Certificate>, b: Seq<Certificate>, key: Seq<ComponentView>)
    requires
        anchors_agree(a, b),
    ensures
        cert_named(a, key) is Some == cert_named(b, key) is Some,
        cert_named(a, key) is Some ==> anchor_agrees(cert_named(a, key).unwrap(), cert_named(b, key).unwrap()),
    decreases a.len(),
{
    if a.len() > 0 {
        assert(anchor_agrees(a[0], b[0]));
        if a[0].name@ != key {
            assert forall|i: int| 0 <= i < a.drop_first().len() implies anchor_agrees(
                #[trigger] a.drop_first()[i],
                b.drop_first()[i],
            ) by {
                assert(anchor_agrees(a[i + 1], b[i + 1]));
            }
            lemma_cert_named_agree(a.drop_first(), b.drop_first(), key);
        }
    }
}

/// A walk reads the anchors only through what agreeing lists share, so it
/// ends the same over either; and it never ends in an error outside those
/// it names.
pub proof fn lemma_walk_agree(
    a: Seq<Certificate>,
    b: Seq<Certificate>,
    revoked: Seq<Seq<ComponentView>>,
    cache: Seq<Certificate>,
    key: Seq<ComponentView>,
    region: Seq<u8>,
    sig: Seq<u8>,
    sig_type: u64,
    now: u64,
    fuel: nat,
    limit: usize,
    seen: Seq<Seq<ComponentView>>,
    chain: Seq<Seq<ComponentView>>,
)
    requires
        anchors_agree(a, b),
    ensures
        walk(a, revoked, cache, key, region, sig, sig_type, now, fuel, limit, seen, chain) == walk(
            b,
            revoked,
            cache,
            key,
            region,
            sig,
            sig_type,
            now,
            fuel,
            limit,
            seen,
            chain,
        ),
        !(walk(a, revoked, cache, key, region, sig, sig_type, now, fuel, limit, seen, chain) matches WalkView::Invalid(
            ErrView::Other,
        )),
    decreases fuel,
{
    if fuel > 0 && !listed(seen, key) && !listed(revoked, key) {
        lemma_cert_named_agree(a, b, key);
        match cert_named(cache, key) {
            Some(c) => match (c.issuer, c.signed_region, c.sig_value) {
                (Some(issuer), Some(sr), Some(sv)) => {
                    lemma_walk_agree(
                        a,
                        b,
                        revoked,
                        cache,
                        issuer@,
                        sr@,
                        sv@,
                        c.sig_type,
                        now,
                        (fuel - 1) as nat,
                        limit,
                        seen.push(key),
                        chain.push(key),
                    );
                },
                _ => {},
            },
            None => {},
        }
    }
}

/// A copy of a list of trust anchors.
pub fn copy_anchors(v: &Vec<Certificate>) -> (r: Vec<Certificate>)
    ensures
        anchors_agree(r@, v@),
{
    let mut out: Vec<Certificate> = Vec::new();
    let mut i: usize = 0;
    while i < v.len()
        invariant
            i <= v@.len(),
            out@.len() == i,
            forall|j: int| 0 <= j < i ==> anchor_agrees(#[trigger] out@[j], v@[j]),
        decreases v@.len() - i,
    {
        out.push(v[i].copy());
        i = i + 1;
    }
    out
}

} // verus!
