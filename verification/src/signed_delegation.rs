//! Signed delegation: a principal's transmittable, verifiable grant of a
//! scoped capability to a subordinate (device) key, and the signer that
//! enforces such a grant.

use vstd::prelude::*;

use crate::delegation::{may_sign_view, CapabilitySet, DelegationError};
use crate::framing::{
    blob_field, get_blob, get_byte, get_name, get_text, get_u64, lemma_take_blob, lemma_take_name, lemma_take_text,
    lemma_take_u64, name_field, put_blob, put_name, put_text, put_u64, take_blob, take_byte, take_name, take_text,
    take_u64, text_field, u64_field,
};
use crate::name::{spec_has_prefix, spec_identity_of, ComponentView, Name};
use crate::name_uri::spec_uri_text;
use crate::signer::{signature_verdict, verify_by_sig_type, Ed25519Signer, SIGNATURE_TYPE_ED25519};
use crate::crypto::{ed25519_public_key, ed25519_signature};
use crate::text::{concat3, utf8_bytes};
use crate::trust_schema::{pattern_parse, pattern_shown, NamePattern, PatView};

verus! {

/// Why an identity operation failed.
#[derive(Debug, Clone, PartialEq, Eq)]
pub enum IdentityError {
    /// A lifecycle step (issuing, signing) was refused.
    Lifecycle(String),
    /// Enrollment with a CA failed.
    Enrollment(String),
}

/// A principal's signed grant of a capability set to a subordinate.
#[derive(Debug, Clone, PartialEq, Eq)]
pub struct SignedDelegation {
    /// The principal's identity namespace (the grantor).
    pub principal: Name,
    /// The subordinate's identity namespace (the grantee).
    pub subordinate: Name,
    /// What the subordinate is authorized to do.
    pub scope: CapabilitySet,
    /// The principal key that signed.
    pub key_locator: Name,
    /// The signature type code of `sig_value`.
    pub sig_type: u64,
    /// The principal's signature over the signed region.
    pub sig_value: Vec<u8>,
}

/// A capability set as plain values.
pub struct ScopeView {
    pub sign: Seq<Seq<PatView>>,
    pub unwrap_for: bool,
    pub enroll: bool,
    pub mgmt: bool,
}

/// A signed delegation as plain values.
pub struct DelegationView {
    pub principal: Seq<ComponentView>,
    pub subordinate: Seq<ComponentView>,
    pub scope: ScopeView,
    pub key_locator: Seq<ComponentView>,
    pub sig_type: u64,
    pub sig_value: Seq<u8>,
}

pub open spec fn scope_view(c: CapabilitySet) -> ScopeView {
    ScopeView {
        sign: c.sign@.map_values(|p: NamePattern| p@),
        unwrap_for: c.unwrap_for,
        enroll: c.enroll,
        mgmt: c.mgmt,
    }
}

impl View for SignedDelegation {
    type V = DelegationView;

    open spec fn view(&self) -> DelegationView {
        DelegationView {
            principal: self.principal@,
            subordinate: self.subordinate@,
            scope: scope_view(self.scope),
            key_locator: self.key_locator@,
            sig_type: self.sig_type,
            sig_value: self.sig_value@,
        }
    }
}

/// A flag byte.
pub open spec fn flag_byte(b: bool) -> u8 {
    if b {
        1
    } else {
        0
    }
}

/// The texts of the patterns, each as a text field.
pub open spec fn patterns_field(ps: Seq<Seq<PatView>>) -> Seq<u8>
    decreases ps.len(),
{
    if ps.len() == 0 {
        Seq::empty()
    } else {
        patterns_field(ps.drop_last()) + text_field(pattern_shown(ps.last()))
    }
}

/// The scope: the pattern count, the pattern texts, then the three flags.
pub open spec fn scope_field(s: ScopeView) -> Seq<u8> {
    u64_field(s.sign.len() as u64) + patterns_field(s.sign) + seq![
        flag_byte(s.unwrap_for),
        flag_byte(s.enroll),
        flag_byte(s.mgmt),
    ]
}

/// The signed region: principal, subordinate, scope, key locator and
/// signature type.
pub open spec fn delegation_region(v: DelegationView) -> Seq<u8> {
    name_field(v.principal) + name_field(v.subordinate) + scope_field(v.scope) + name_field(v.key_locator)
        + u64_field(v.sig_type)
}

/// The transmitted record: the signed region, then the framed signature.
pub open spec fn delegation_wire(v: DelegationView) -> Seq<u8> {
    delegation_region(v) + blob_field(v.sig_value)
}

/// Read `n` pattern texts at `pos`, each of which must parse.
pub open spec fn take_patterns(s: Seq<u8>, pos: int, n: nat) -> Option<(Seq<Seq<PatView>>, int)>
    decreases n,
{
    if n == 0 {
        Some((Seq::empty(), pos))
    } else {
        match take_patterns(s, pos, (n - 1) as nat) {
            None => None,
            Some((ps, p)) => match take_text(s, p) {
                None => None,
                Some((t, q)) => match pattern_parse(t) {
                    Ok(pv) => Some((ps.push(pv), q)),
                    Err(_) => None,
                },
            },
        }
    }
}

/// Read a scope at `pos`; a flag is set when its byte is not zero.
pub open spec fn take_scope(s: Seq<u8>, pos: int) -> Option<(ScopeView, int)> {
    match take_u64(s, pos) {
        None => None,
        Some((n, p)) => match take_patterns(s, p, n as nat) {
            None => None,
            Some((sign, q)) => match (take_byte(s, q), take_byte(s, q + 1), take_byte(s, q + 2)) {
                (Some((a, _)), Some((b, _)), Some((c, r))) => Some(
                    (ScopeView { sign, unwrap_for: a != 0, enroll: b != 0, mgmt: c != 0 }, r),
                ),
                _ => None,
            },
        },
    }
}

/// Reading a delegation back; trailing bytes are ignored.
pub open spec fn delegation_decoding(s: Seq<u8>) -> Option<DelegationView> {
    match take_name(s, 0) {
        None => None,
        Some((principal, p1)) => match take_name(s, p1) {
            None => None,
            Some((subordinate, p2)) => match take_scope(s, p2) {
                None => None,
                Some((scope, p3)) => match take_name(s, p3) {
                    None => None,
                    Some((key_locator, p4)) => match take_u64(s, p4) {
                        None => None,
                        Some((sig_type, p5)) => match take_blob(s, p5) {
                            None => None,
                            Some((sig_value, _)) => Some(
                                DelegationView { principal, subordinate, scope, key_locator, sig_type, sig_value },
                            ),
                        },
                    },
                },
            },
        },
    }
}

/// The verdict on a delegation under the principal's public key.
pub open spec fn signed_delegation_verdict(v: DelegationView, principal_public_key: Seq<u8>) -> Result<(), DelegationError> {
    if !spec_has_prefix(v.subordinate, v.principal) {
        Err(DelegationError::OutOfNamespace)
    } else if spec_identity_of(v.key_locator) != Some(v.principal) {
        Err(DelegationError::NotIssuedByPrincipal)
    } else if signature_verdict(v.sig_type, delegation_region(v), v.sig_value, principal_public_key) != Ok::<
        bool,
        Seq<char>,
    >(true) {
        Err(DelegationError::SignatureInvalid)
    } else {
        Ok(())
    }
}

fn encode_scope(out: &mut Vec<u8>, scope: &CapabilitySet)
    ensures
        final(out)@ == old(out)@ + scope_field(scope_view(*scope)),
{
    let ghost start = out@;
    let ghost views = scope_view(*scope).sign;
    put_u64(out, scope.sign.len() as u64);
    let mut i: usize = 0;
    proof {
        assert(views.take(0) =~= Seq::<Seq<PatView>>::empty());
    }
    while i < scope.sign.len()
        invariant
            i <= scope.sign@.len(),
            views == scope_view(*scope).sign,
            views.len() == scope.sign@.len(),
            out@ == start + u64_field(scope.sign@.len() as u64) + patterns_field(views.take(i as int)),
        decreases scope.sign@.len() - i,
    {
        let t = scope.sign[i].to_text();
        put_text(out, t.as_str());
        proof {
            assert(views.take(i + 1).drop_last() =~= views.take(i as int));
            assert(views.take(i + 1).last() == scope.sign@[i as int]@);
        }
        i = i + 1;
    }
    proof {
        assert(views.take(i as int) =~= views);
    }
    out.push(if scope.unwrap_for { 1u8 } else { 0u8 });
    out.push(if scope.enroll { 1u8 } else { 0u8 });
    out.push(if scope.mgmt { 1u8 } else { 0u8 });
    proof {
        assert(out@ =~= start + scope_field(scope_view(*scope)));
    }
}

fn get_scope(s: &[u8], pos: usize) -> (r: Option<(CapabilitySet, usize)>)
    ensures
        match take_scope(s@, pos as int) {
            None => r is None,
            Some((v, p)) => r matches Some((c, q)) && scope_view(c) == v && q == p,
        },
{
    let (n, p) = match get_u64(s, pos) {
        None => return None,
        Some(x) => x,
    };
    let mut sign: Vec<NamePattern> = Vec::new();
    let mut at = p;
    let mut i: u64 = 0;
    proof {
        assert(sign@.map_values(|q: NamePattern| q@) =~= Seq::<Seq<PatView>>::empty());
    }
    while i < n
        invariant
            i <= n,
            take_u64(s@, pos as int) == Some((n, p as int)),
            take_patterns(s@, p as int, i as nat) == Some((sign@.map_values(|q: NamePattern| q@), at as int)),
        decreases n - i,
    {
        let (t, next) = match get_text(s, at) {
            None => {
                proof {
                    lemma_take_patterns_stops(s@, p as int, (i + 1) as nat, n as nat);
                }
                return None;
            },
            Some(x) => x,
        };
        let pat = match NamePattern::parse(t.as_str()) {
            Err(_) => {
                proof {
                    lemma_take_patterns_stops(s@, p as int, (i + 1) as nat, n as nat);
                }
                return None;
            },
            Ok(pat) => pat,
        };
        let ghost before = sign@.map_values(|q: NamePattern| q@);
        sign.push(pat);
        proof {
            assert(sign@.map_values(|q: NamePattern| q@) =~= before.push(pat@));
        }
        at = next;
        i = i + 1;
    }
    let (a, at1) = match get_byte(s, at) {
        None => return None,
        Some(x) => x,
    };
    let (b, at2) = match get_byte(s, at1) {
        None => return None,
        Some(x) => x,
    };
    let (c, at3) = match get_byte(s, at2) {
        None => return None,
        Some(x) => x,
    };
    Some((CapabilitySet { sign, unwrap_for: a != 0, enroll: b != 0, mgmt: c != 0 }, at3))
}

/// Once reading `k` patterns fails, reading more fails too.
proof fn lemma_take_patterns_stops(s: Seq<u8>, pos: int, k: nat, n: nat)
    requires
        k <= n,
        take_patterns(s, pos, k) is None,
    ensures
        take_patterns(s, pos, n) is None,
    decreases n - k,
{
    if k < n {
        lemma_take_patterns_stops(s, pos, k + 1, n);
    }
}

impl SignedDelegation {
    /// The principal (identity `principal`, signing with `signer`) grants
    /// `scope` to `subordinate`. Refused when the subordinate is not under
    /// the principal's namespace: a principal cannot delegate authority it
    /// does not hold.
    pub fn issue(principal: &Name, signer: &Ed25519Signer, subordinate: Name, scope: CapabilitySet) -> (r: Result<
        SignedDelegation,
        IdentityError,
    >)
        ensures
            !spec_has_prefix(subordinate@, principal@) ==> (r matches Err(IdentityError::Lifecycle(m)) && m@
                == "subordinate "@ + spec_uri_text(subordinate@) + " is not under principal namespace "@
                + spec_uri_text(principal@)),
            spec_has_prefix(subordinate@, principal@) ==> (r matches Ok(d) && d.principal@ == principal@
                && d.subordinate@ == subordinate@ && scope_view(d.scope) == scope_view(scope)
                && d.key_locator@ == signer.key_name_of()@ && d.sig_type == SIGNATURE_TYPE_ED25519
                && d.sig_value@ == ed25519_signature(signer.seed_view(), delegation_region(d@))
                && signature_verdict(d.sig_type, delegation_region(d@), d.sig_value@, ed25519_public_key(signer.seed_view()))
                    == Ok::<bool, Seq<char>>(true)),
    {
        if !subordinate.has_prefix(principal) {
            let mut m = concat3("subordinate ", subordinate.to_uri().as_str(), " is not under principal namespace ");
            crate::text::push_text(&mut m, principal.to_uri().as_str());
            return Err(IdentityError::Lifecycle(m));
        }
        let mut d = SignedDelegation {
            principal: principal.copy(),
            subordinate,
            scope,
            key_locator: signer.key_name().copy(),
            sig_type: signer.sig_type(),
            sig_value: Vec::new(),
        };
        let region = d.canonical_bytes();
        d.sig_value = signer.sign_sync(region.as_slice());
        proof {
            assert(delegation_region(d@) == region@);
        }
        Ok(d)
    }

    /// Check the grant against the principal's public key (which the caller
    /// resolved from `key_locator`): the subordinate must be under the
    /// principal, the signing key must belong to the principal, and the
    /// signature must verify. On success the result is the granted scope.
    pub fn verify(&self, principal_public_key: &[u8]) -> (r: Result<CapabilitySet, DelegationError>)
        ensures
            match signed_delegation_verdict(self@, principal_public_key@) {
                Err(e) => r == Err::<CapabilitySet, DelegationError>(e),
                Ok(()) => r matches Ok(c) && scope_view(c) == scope_view(self.scope),
            },
    {
        if !self.subordinate.has_prefix(&self.principal) {
            return Err(DelegationError::OutOfNamespace);
        }
        match self.key_locator.identity_of() {
            Some(id) => {
                if !id.same_as(&self.principal) {
                    return Err(DelegationError::NotIssuedByPrincipal);
                }
            },
            None => return Err(DelegationError::NotIssuedByPrincipal),
        }
        let region = self.canonical_bytes();
        match verify_by_sig_type(self.sig_type, region.as_slice(), self.sig_value.as_slice(), principal_public_key) {
            Ok(true) => {
                let c = self.scope.copy();
                proof {
                    assert(scope_view(c).sign =~= scope_view(self.scope).sign);
                }
                Ok(c)
            },
            _ => Err(DelegationError::SignatureInvalid),
        }
    }

    /// The signed region, re-derived from the fields.
    pub fn canonical_bytes(&self) -> (r: Vec<u8>)
        ensures
            r@ == delegation_region(self@),
    {
        let mut out: Vec<u8> = Vec::new();
        put_name(&mut out, &self.principal);
        put_name(&mut out, &self.subordinate);
        encode_scope(&mut out, &self.scope);
        put_name(&mut out, &self.key_locator);
        put_u64(&mut out, self.sig_type);
        proof {
            assert(out@ =~= delegation_region(self@));
        }
        out
    }

    /// The record to transmit.
    pub fn encode(&self) -> (r: Vec<u8>)
        ensures
            r@ == delegation_wire(self@),
    {
        let mut out = self.canonical_bytes();
        put_blob(&mut out, self.sig_value.as_slice());
        out
    }

    /// Read a record written by [`SignedDelegation::encode`]; it still needs
    /// [`SignedDelegation::verify`] before its scope is trusted.
    #[verifier::spinoff_prover]
    pub fn decode(wire: &[u8]) -> (r: Result<SignedDelegation, DelegationError>)
        ensures
            match delegation_decoding(wire@) {
                None => r == Err::<SignedDelegation, DelegationError>(DelegationError::Malformed),
                Some(v) => r matches Ok(d) && d@ == v,
            },
    {
        let (principal, p1) = match get_name(wire, 0) {
            None => return Err(DelegationError::Malformed),
            Some(x) => x,
        };
        assert(take_name(wire@, 0) == Some((principal@, p1 as int)));
        let (subordinate, p2) = match get_name(wire, p1) {
            None => return Err(DelegationError::Malformed),
            Some(x) => x,
        };
        assert(take_name(wire@, p1 as int) == Some((subordinate@, p2 as int)));
        let (scope, p3) = match get_scope(wire, p2) {
            None => return Err(DelegationError::Malformed),
            Some(x) => x,
        };
        assert(take_scope(wire@, p2 as int) == Some((scope_view(scope), p3 as int)));
        let (key_locator, p4) = match get_name(wire, p3) {
            None => return Err(DelegationError::Malformed),
            Some(x) => x,
        };
        assert(take_name(wire@, p3 as int) == Some((key_locator@, p4 as int)));
        let (sig_type, p5) = match get_u64(wire, p4) {
            None => return Err(DelegationError::Malformed),
            Some(x) => x,
        };
        assert(take_u64(wire@, p4 as int) == Some((sig_type, p5 as int)));
        let (start, end) = match get_blob(wire, p5) {
            None => return Err(DelegationError::Malformed),
            Some(x) => x,
        };
        let sig_value = crate::tlv::slice_to_vec(wire, start, end);
        Ok(SignedDelegation { principal, subordinate, scope, key_locator, sig_type, sig_value })
    }
}

/// A subordinate's signer gated by a verified grant: it signs only names
/// the grant authorizes.
pub struct DelegatedSigner {
    signer: Ed25519Signer,
    grant: CapabilitySet,
}

impl DelegatedSigner {
    /// Wrap `signer` with an already-verified `grant`.
    pub fn new(signer: Ed25519Signer, grant: CapabilitySet) -> (r: DelegatedSigner)
        ensures
            r.grant_view() == scope_view(grant),
            r.signer_seed() == signer.seed_view(),
    {
        DelegatedSigner { signer, grant }
    }

    pub closed spec fn grant_view(&self) -> ScopeView {
        scope_view(self.grant)
    }

    pub closed spec fn grant_patterns(&self) -> Seq<NamePattern> {
        self.grant.sign@
    }

    pub closed spec fn signer_seed(&self) -> Seq<u8> {
        self.signer.seed_view()
    }

    /// Verify `delegation` against the principal's public key, then gate
    /// `signer` by the granted scope.
    pub fn from_delegation(signer: Ed25519Signer, delegation: &SignedDelegation, principal_public_key: &[u8]) -> (r:
        Result<DelegatedSigner, DelegationError>)
        ensures
            match signed_delegation_verdict(delegation@, principal_public_key@) {
                Err(e) => r matches Err(f) && f == e,
                Ok(()) => r matches Ok(d) && d.grant_view() == scope_view(delegation.scope)
                    && d.signer_seed() == signer.seed_view(),
            },
    {
        let grant = match delegation.verify(principal_public_key) {
            Err(e) => return Err(e),
            Ok(g) => g,
        };
        Ok(DelegatedSigner::new(signer, grant))
    }

    /// The scope this signer acts within.
    pub fn grant(&self) -> (r: &CapabilitySet)
        ensures
            scope_view(*r) == self.grant_view(),
    {
        &self.grant
    }

    /// Whether the grant authorizes signing `name`.
    pub fn may_sign(&self, name: &Name) -> (r: bool)
        ensures
            r == may_sign_view(self.grant_patterns(), name@),
    {
        self.grant.may_sign(name)
    }

    /// Sign `region` (the to-be-signed bytes of a Data named `name`) with
    /// the subordinate's own key, but only when the grant authorizes `name`.
    pub fn sign(&self, name: &Name, region: &[u8]) -> (r: Result<Vec<u8>, IdentityError>)
        ensures
            may_sign_view(self.grant_patterns(), name@) ==> (r matches Ok(sig) && sig@ == ed25519_signature(
                self.signer_seed(),
                region@,
            )),
            !may_sign_view(self.grant_patterns(), name@) ==> (r matches Err(IdentityError::Lifecycle(m)) && m@
                == "delegation does not authorize signing "@ + spec_uri_text(name@)),
    {
        if !self.may_sign(name) {
            let mut m = crate::text::string_from_static("delegation does not authorize signing ");
            crate::text::push_text(&mut m, name.to_uri().as_str());
            return Err(IdentityError::Lifecycle(m));
        }
        Ok(self.signer.sign_sync(region))
    }
}

/// The texts of patterns that parse back to themselves read back as the
/// patterns.
proof fn lemma_take_patterns(s: Seq<u8>, pos: int, ps: Seq<Seq<PatView>>)
    requires
        0 <= pos,
        pos + patterns_field(ps).len() <= s.len(),
        s.subrange(pos, pos + patterns_field(ps).len()) == patterns_field(ps),
        forall|i: int| 0 <= i < ps.len() ==> pattern_parse(pattern_shown(#[trigger] ps[i])) == Ok::<
            Seq<PatView>,
            crate::trust_schema::PatternParseError,
        >(ps[i]),
        forall|i: int| 0 <= i < ps.len() ==> utf8_bytes(pattern_shown(#[trigger] ps[i])).len() <= u64::MAX,
    ensures
        take_patterns(s, pos, ps.len()) == Some((ps, pos + patterns_field(ps).len())),
    decreases ps.len(),
{
    if ps.len() > 0 {
        let init = ps.drop_last();
        let t = pattern_shown(ps.last());
        let a = patterns_field(init);
        assert(patterns_field(ps) == a + text_field(t));
        crate::tlv::lemma_be_bytes_len(utf8_bytes(t).len(), 8);
        assert((a + text_field(t)).subrange(0, a.len() as int) =~= a);
        assert((a + text_field(t)).subrange(a.len() as int, patterns_field(ps).len() as int) =~= text_field(t));
        assert(s.subrange(pos, pos + a.len()) =~= s.subrange(pos, pos + patterns_field(ps).len()).subrange(0, a.len() as int));
        assert forall|i: int| 0 <= i < init.len() implies pattern_parse(pattern_shown(#[trigger] init[i])) == Ok::<
            Seq<PatView>,
            crate::trust_schema::PatternParseError,
        >(init[i]) by {
            assert(init[i] == ps[i]);
        }
        assert forall|i: int| 0 <= i < init.len() implies utf8_bytes(pattern_shown(#[trigger] init[i])).len() <= u64::MAX by {
            assert(init[i] == ps[i]);
        }
        lemma_take_patterns(s, pos, init);
        let p = pos + a.len();
        assert(s.subrange(p, p + 8 + utf8_bytes(t).len()) =~= s.subrange(pos, pos + patterns_field(ps).len()).subrange(
            a.len() as int,
            patterns_field(ps).len() as int,
        ));
        lemma_take_text(s, p, t);
        assert(ps.len() - 1 == init.len());
        assert(init.push(ps.last()) =~= ps);
    }
}

/// Decoding an encoded delegation gives it back, when each sign pattern's
/// text parses back to the pattern.
#[verifier::spinoff_prover]
#[verifier::rlimit(80)]
pub proof fn lemma_delegation_roundtrip(v: DelegationView)
    requires
        forall|i: int| 0 <= i < v.scope.sign.len() ==> pattern_parse(pattern_shown(#[trigger] v.scope.sign[i])) == Ok::<
            Seq<PatView>,
            crate::trust_schema::PatternParseError,
        >(v.scope.sign[i]),
        forall|i: int| 0 <= i < v.scope.sign.len() ==> utf8_bytes(pattern_shown(#[trigger] v.scope.sign[i])).len()
            <= u64::MAX,
        v.scope.sign.len() <= u64::MAX,
        utf8_bytes(spec_uri_text(v.principal)).len() <= u64::MAX,
        utf8_bytes(spec_uri_text(v.subordinate)).len() <= u64::MAX,
        utf8_bytes(spec_uri_text(v.key_locator)).len() <= u64::MAX,
        v.sig_value.len() <= u64::MAX,
    ensures
        delegation_decoding(delegation_wire(v)) == Some(v),
{
    let a = name_field(v.principal);
    let b = name_field(v.subordinate);
    let sc = scope_field(v.scope);
    let d = name_field(v.key_locator);
    let e = u64_field(v.sig_type);
    let f = blob_field(v.sig_value);
    let s = delegation_wire(v);
    crate::tlv::lemma_be_bytes_len(utf8_bytes(spec_uri_text(v.principal)).len(), 8);
    crate::tlv::lemma_be_bytes_len(utf8_bytes(spec_uri_text(v.subordinate)).len(), 8);
    crate::tlv::lemma_be_bytes_len(utf8_bytes(spec_uri_text(v.key_locator)).len(), 8);
    crate::tlv::lemma_be_bytes_len(v.sig_type as nat, 8);
    crate::tlv::lemma_be_bytes_len(v.sig_value.len(), 8);
    assert(s =~= a + b + sc + d + e + f);
    let p1 = a.len() as int;
    let p2 = p1 + b.len();
    let p3 = p2 + sc.len();
    let p4 = p3 + d.len();
    let p5 = p4 + 8;
    assert(s.subrange(0, p1) =~= a);
    lemma_take_name(s, 0, v.principal);
    assert(s.subrange(p1, p2) =~= b);
    lemma_take_name(s, p1, v.subordinate);
    assert(s.subrange(p2, p3) =~= sc);
    lemma_take_scope(s, p2, v.scope);
    assert(s.subrange(p3, p4) =~= d);
    lemma_take_name(s, p3, v.key_locator);
    assert(s.subrange(p4, p5) =~= e);
    lemma_take_u64(s, p4, v.sig_type);
    assert(s.subrange(p5, p5 + 8 + v.sig_value.len()) =~= f);
    lemma_take_blob(s, p5, v.sig_value);
}

/// A scope whose pattern texts parse back to the patterns reads back as
/// the scope.
#[verifier::spinoff_prover]
proof fn lemma_take_scope(s: Seq<u8>, pos: int, sc: ScopeView)
    requires
        0 <= pos,
        pos + scope_field(sc).len() <= s.len(),
        s.subrange(pos, pos + scope_field(sc).len()) == scope_field(sc),
        forall|i: int| 0 <= i < sc.sign.len() ==> pattern_parse(pattern_shown(#[trigger] sc.sign[i])) == Ok::<
            Seq<PatView>,
            crate::trust_schema::PatternParseError,
        >(sc.sign[i]),
        forall|i: int| 0 <= i < sc.sign.len() ==> utf8_bytes(pattern_shown(#[trigger] sc.sign[i])).len() <= u64::MAX,
        sc.sign.len() <= u64::MAX,
    ensures
        take_scope(s, pos) == Some((sc, pos + scope_field(sc).len())),
{
    let cnt = u64_field(sc.sign.len() as u64);
    let pf = patterns_field(sc.sign);
    let flags = seq![flag_byte(sc.unwrap_for), flag_byte(sc.enroll), flag_byte(sc.mgmt)];
    crate::tlv::lemma_be_bytes_len(sc.sign.len() as nat, 8);
    assert(scope_field(sc) =~= cnt + pf + flags);
    let pc = pos + 8;
    let pp = pc + pf.len();
    assert(s.subrange(pos, pc) =~= scope_field(sc).subrange(0, 8));
    assert(scope_field(sc).subrange(0, 8) =~= cnt);
    lemma_take_u64(s, pos, sc.sign.len() as u64);
    assert(s.subrange(pc, pp) =~= scope_field(sc).subrange(8, 8 + pf.len() as int));
    assert(scope_field(sc).subrange(8, 8 + pf.len() as int) =~= pf);
    lemma_take_patterns(s, pc, sc.sign);
    assert(s[pp] == scope_field(sc)[8 + pf.len() as int]);
    assert(s[pp + 1] == scope_field(sc)[9 + pf.len() as int]);
    assert(s[pp + 2] == scope_field(sc)[10 + pf.len() as int]);
    assert(flag_byte(sc.unwrap_for) != 0 <==> sc.unwrap_for);
    assert(flag_byte(sc.enroll) != 0 <==> sc.enroll);
    assert(flag_byte(sc.mgmt) != 0 <==> sc.mgmt);
}

} // verus!
