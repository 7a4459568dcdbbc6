//! The `ndn-trust://` onboarding envelope: a transfer of authority over a
//! namespace, carried as a TLV container (the `.ndntrust` file form) or as a
//! URI holding that container in base64url.
//!
//! ```text
//! ndn-trust://<kind>/<base64url(TLV)>        QR / NFC / clipboard / deep-link
//! https://<domain>/t/<kind>#<base64url(TLV)> universal-link mirror
//! ndn-ctx:1:<ver>:<b64url>                    legacy anchor form, still parsed
//! ```
//!
//! The `<kind>` in a URI is a routing hint; the TLV is authoritative.

use vstd::prelude::*;
use vstd::utf8::{decode_utf8, valid_utf8};

use crate::b64::{b64url_decode, b64url_decoding, b64url_encode, b64url_encoding, is_b64url_char};
use crate::text::{ascii_chars, is_white_space, lemma_ascii_text, string_from_ascii, trim_text, trimmed, utf8_bytes, utf8_to_string};
use crate::tlv::{
    append_bytes, be_bytes, be_value, lemma_be_roundtrip, lemma_pow256_values, lemma_tlv_elements_roundtrip,
    lemma_tlv_roundtrip, push_be, read_be, read_tlv, slice_to_vec, tlv_elements, tlv_encode, tlv_encode_all,
    tlv_parse, write_tlv,
};

verus! {

pub const T_ENVELOPE: u64 = 0x0470;
pub const T_FORMAT_VERSION: u64 = 0x0471;
pub const T_KIND: u64 = 0x0472;
pub const T_BODY: u64 = 0x0473;

pub const T_U64_VERSION: u64 = 0x0481;
pub const T_WIRE: u64 = 0x0482;
pub const T_CA_PREFIX: u64 = 0x0483;
pub const T_ID_NAMESPACE: u64 = 0x0484;
pub const T_TOKEN: u64 = 0x0485;
pub const T_TTL_SECS: u64 = 0x0486;
pub const T_PRINCIPAL_PUBKEY: u64 = 0x0487;
pub const T_KEY_NAME: u64 = 0x0488;
pub const T_NAMESPACE: u64 = 0x0489;
pub const T_SCOPE_PATTERN: u64 = 0x048A;
pub const T_NONCE: u64 = 0x048B;
pub const T_GRANT: u64 = 0x048C;
pub const T_DIRECTION: u64 = 0x048D;

/// The envelope format version this library emits and accepts.
pub const FORMAT_VERSION: u8 = 1;

/// What kind of authority transfer an envelope carries.
#[derive(Debug, Clone, Copy, PartialEq, Eq, Structural)]
pub enum TrustKind {
    /// Adopt a trust context (a named anchor set).
    Anchor,
    /// An NDNCERT enrollment invitation (CA + namespace + token).
    Invite,
    /// A signed delegation (sponsor a device / be sponsored).
    Delegation,
    /// A recovery bundle (restore an identity on a fresh device).
    Recovery,
    /// A password-encrypted SafeBag (key migration).
    Bag,
    /// An ephemeral, scoped, expiring capability (pairing).
    Capability,
}

/// Direction of a [`Capability`] payload.
#[derive(Debug, Clone, Copy, PartialEq, Eq, Structural)]
pub enum CapDirection {
    /// A peer asking this device to grant a capability.
    Request,
    /// A capability this device has granted to a bearer.
    Grant,
}

/// Errors decoding a trust envelope.
#[derive(Debug, Clone, Copy, PartialEq, Eq)]
pub enum EnvelopeError {
    /// Not a recognized trust-envelope URI scheme.
    UnknownScheme,
    /// Malformed trust-envelope URI.
    MalformedUri,
    /// Invalid base64url payload.
    BadBase64,
    /// Truncated TLV.
    Truncated,
    /// Unexpected outer TLV tag.
    BadTag(u64),
    /// Unsupported envelope format version.
    UnsupportedVersion(u8),
    /// Unknown kind code.
    UnknownKind(u8),
    /// Missing required field.
    MissingField(&'static str),
    /// Malformed field.
    Malformed(&'static str),
}

pub open spec fn kind_code(k: TrustKind) -> u8 {
    match k {
        TrustKind::Anchor => 1,
        TrustKind::Invite => 2,
        TrustKind::Delegation => 3,
        TrustKind::Recovery => 4,
        TrustKind::Bag => 5,
        TrustKind::Capability => 6,
    }
}

pub open spec fn kind_of_code(c: u8) -> Option<TrustKind> {
    if c == 1 {
        Some(TrustKind::Anchor)
    } else if c == 2 {
        Some(TrustKind::Invite)
    } else if c == 3 {
        Some(TrustKind::Delegation)
    } else if c == 4 {
        Some(TrustKind::Recovery)
    } else if c == 5 {
        Some(TrustKind::Bag)
    } else if c == 6 {
        Some(TrustKind::Capability)
    } else {
        None
    }
}

/// The URI host token of each kind.
pub open spec fn kind_text(k: TrustKind) -> Seq<char> {
    match k {
        TrustKind::Anchor => seq!['a', 'n', 'c', 'h', 'o', 'r'],
        TrustKind::Invite => seq!['i', 'n', 'v', 'i', 't', 'e'],
        TrustKind::Delegation => seq!['d', 'e', 'l', 'e', 'g', 'a', 't', 'i', 'o', 'n'],
        TrustKind::Recovery => seq!['r', 'e', 'c', 'o', 'v', 'e', 'r', 'y'],
        TrustKind::Bag => seq!['b', 'a', 'g'],
        TrustKind::Capability => seq!['c', 'a', 'p', 'a', 'b', 'i', 'l', 'i', 't', 'y'],
    }
}

impl TrustKind {
    pub fn code(self) -> (r: u8)
        ensures
            r == kind_code(self),
    {
        match self {
            TrustKind::Anchor => 1,
            TrustKind::Invite => 2,
            TrustKind::Delegation => 3,
            TrustKind::Recovery => 4,
            TrustKind::Bag => 5,
            TrustKind::Capability => 6,
        }
    }

    pub fn from_code(c: u8) -> (r: Result<TrustKind, EnvelopeError>)
        ensures
            match kind_of_code(c) {
                Some(k) => r == Ok::<TrustKind, EnvelopeError>(k),
                None => r == Err::<TrustKind, EnvelopeError>(EnvelopeError::UnknownKind(c)),
            },
    {
        if c == 1 {
            Ok(TrustKind::Anchor)
        } else if c == 2 {
            Ok(TrustKind::Invite)
        } else if c == 3 {
            Ok(TrustKind::Delegation)
        } else if c == 4 {
            Ok(TrustKind::Recovery)
        } else if c == 5 {
            Ok(TrustKind::Bag)
        } else if c == 6 {
            Ok(TrustKind::Capability)
        } else {
            Err(EnvelopeError::UnknownKind(c))
        }
    }

    /// The URI host token (`ndn-trust://<as_str>/...`).
    pub fn as_str(self) -> (r: &'static str)
        ensures
            r@ == kind_text(self),
    {
        match self {
            TrustKind::Anchor => {
                proof {
                    reveal_strlit("anchor");
                }
                "anchor"
            },
            TrustKind::Invite => {
                proof {
                    reveal_strlit("invite");
                }
                "invite"
            },
            TrustKind::Delegation => {
                proof {
                    reveal_strlit("delegation");
                }
                "delegation"
            },
            TrustKind::Recovery => {
                proof {
                    reveal_strlit("recovery");
                }
                "recovery"
            },
            TrustKind::Bag => {
                proof {
                    reveal_strlit("bag");
                }
                "bag"
            },
            TrustKind::Capability => {
                proof {
                    reveal_strlit("capability");
                }
                "capability"
            },
        }
    }
}

pub open spec fn direction_code(d: CapDirection) -> u8 {
    match d {
        CapDirection::Request => 0,
        CapDirection::Grant => 1,
    }
}

impl CapDirection {
    pub fn code(self) -> (r: u8)
        ensures
            r == direction_code(self),
    {
        match self {
            CapDirection::Request => 0,
            CapDirection::Grant => 1,
        }
    }

    pub fn from_code(c: u8) -> (r: Result<CapDirection, EnvelopeError>)
        ensures
            c == 0 ==> r == Ok::<CapDirection, EnvelopeError>(CapDirection::Request),
            c == 1 ==> r == Ok::<CapDirection, EnvelopeError>(CapDirection::Grant),
            c > 1 ==> r == Err::<CapDirection, EnvelopeError>(
                EnvelopeError::Malformed("capability direction"),
            ),
    {
        if c == 0 {
            Ok(CapDirection::Request)
        } else if c == 1 {
            Ok(CapDirection::Grant)
        } else {
            Err(EnvelopeError::Malformed("capability direction"))
        }
    }
}

/// An ephemeral, scoped, expiring capability: the pairing payload. A
/// `Request` carries the asked-for scope; a `Grant` additionally carries the
/// signed capability wire in `grant`.
#[derive(Debug, Clone, PartialEq, Eq)]
pub struct Capability {
    pub direction: CapDirection,
    /// The namespace the capability is scoped to.
    pub namespace: String,
    /// Trust-schema patterns further narrowing the grant.
    pub scope_patterns: Vec<String>,
    /// Lifetime in seconds (a hard ceiling; never "forever").
    pub ttl_secs: u64,
    /// Anti-replay nonce chosen by the requester.
    pub nonce: Vec<u8>,
    /// The signed capability wire (present on a `Grant`).
    pub grant: Option<Vec<u8>>,
}

/// A decoded `ndn-trust://` envelope.
#[derive(Debug, Clone, PartialEq, Eq)]
pub enum TrustEnvelope {
    /// Adopt a trust context.
    Anchor { version: u64, context_content: Vec<u8> },
    /// NDNCERT enrollment invitation.
    Invite {
        ca_prefix: String,
        identity_namespace: String,
        token: String,
        ttl_secs: Option<u64>,
    },
    /// A signed delegation plus the principal's public key needed to verify it.
    Delegation { signed_delegation: Vec<u8>, principal_pubkey: Vec<u8> },
    /// A recovery bundle (public history; carries no private keys).
    Recovery { bundle: Vec<u8> },
    /// A password-encrypted SafeBag and the key name it carries.
    Bag { key_name: String, safebag: Vec<u8> },
    /// An ephemeral scoped capability (pairing).
    Capability(Capability),
}

/// What an envelope holds, as plain values.
pub enum EnvelopeModel {
    Anchor { version: u64, context_content: Seq<u8> },
    Invite {
        ca_prefix: Seq<char>,
        identity_namespace: Seq<char>,
        token: Seq<char>,
        ttl_secs: Option<u64>,
    },
    Delegation { signed_delegation: Seq<u8>, principal_pubkey: Seq<u8> },
    Recovery { bundle: Seq<u8> },
    Bag { key_name: Seq<char>, safebag: Seq<u8> },
    Capability {
        direction: CapDirection,
        namespace: Seq<char>,
        scope_patterns: Seq<Seq<char>>,
        ttl_secs: u64,
        nonce: Seq<u8>,
        grant: Option<Seq<u8>>,
    },
}

pub open spec fn opt_bytes(o: Option<Vec<u8>>) -> Option<Seq<u8>> {
    match o {
        Some(v) => Some(v@),
        None => None,
    }
}

impl View for TrustEnvelope {
    type V = EnvelopeModel;

    open spec fn view(&self) -> EnvelopeModel {
        match self {
            TrustEnvelope::Anchor { version, context_content } => EnvelopeModel::Anchor {
                version: *version,
                context_content: context_content@,
            },
            TrustEnvelope::Invite { ca_prefix, identity_namespace, token, ttl_secs } =>
                EnvelopeModel::Invite {
                ca_prefix: ca_prefix@,
                identity_namespace: identity_namespace@,
                token: token@,
                ttl_secs: *ttl_secs,
            },
            TrustEnvelope::Delegation { signed_delegation, principal_pubkey } =>
                EnvelopeModel::Delegation {
                signed_delegation: signed_delegation@,
                principal_pubkey: principal_pubkey@,
            },
            TrustEnvelope::Recovery { bundle } => EnvelopeModel::Recovery { bundle: bundle@ },
            TrustEnvelope::Bag { key_name, safebag } => EnvelopeModel::Bag {
                key_name: key_name@,
                safebag: safebag@,
            },
            TrustEnvelope::Capability(c) => EnvelopeModel::Capability {
                direction: c.direction,
                namespace: c.namespace@,
                scope_patterns: c.scope_patterns@.map_values(|s: String| s@),
                ttl_secs: c.ttl_secs,
                nonce: c.nonce@,
                grant: opt_bytes(c.grant),
            },
        }
    }
}

pub open spec fn model_kind(m: EnvelopeModel) -> TrustKind {
    match m {
        EnvelopeModel::Anchor { .. } => TrustKind::Anchor,
        EnvelopeModel::Invite { .. } => TrustKind::Invite,
        EnvelopeModel::Delegation { .. } => TrustKind::Delegation,
        EnvelopeModel::Recovery { .. } => TrustKind::Recovery,
        EnvelopeModel::Bag { .. } => TrustKind::Bag,
        EnvelopeModel::Capability { .. } => TrustKind::Capability,
    }
}

// ---------------------------------------------------------------------------
// The wire form
// ---------------------------------------------------------------------------

pub open spec fn u64_be(x: u64) -> Seq<u8> {
    be_bytes(x as nat, 8)
}

pub open spec fn text_field(t: u64, s: Seq<char>) -> (u64, Seq<u8>) {
    (t, utf8_bytes(s))
}

/// The elements of an envelope's body, in the order they are written.
pub open spec fn body_elements(m: EnvelopeModel) -> Seq<(u64, Seq<u8>)> {
    match m {
        EnvelopeModel::Anchor { version, context_content } => seq![
            (T_U64_VERSION, u64_be(version)),
            (T_WIRE, context_content),
        ],
        EnvelopeModel::Invite { ca_prefix, identity_namespace, token, ttl_secs } => seq![
            text_field(T_CA_PREFIX, ca_prefix),
            text_field(T_ID_NAMESPACE, identity_namespace),
            text_field(T_TOKEN, token),
        ] + match ttl_secs {
            Some(t) => seq![(T_TTL_SECS, u64_be(t))],
            None => Seq::empty(),
        },
        EnvelopeModel::Delegation { signed_delegation, principal_pubkey } => seq![
            (T_WIRE, signed_delegation),
            (T_PRINCIPAL_PUBKEY, principal_pubkey),
        ],
        EnvelopeModel::Recovery { bundle } => seq![(T_WIRE, bundle)],
        EnvelopeModel::Bag { key_name, safebag } => seq![
            text_field(T_KEY_NAME, key_name),
            (T_WIRE, safebag),
        ],
        EnvelopeModel::Capability { direction, namespace, scope_patterns, ttl_secs, nonce, grant } =>
            seq![(T_DIRECTION, seq![direction_code(direction)]), text_field(T_NAMESPACE, namespace)]
            + scope_patterns.map_values(|p: Seq<char>| text_field(T_SCOPE_PATTERN, p)) + seq![
            (T_TTL_SECS, u64_be(ttl_secs)),
        ] + (if nonce.len() > 0 {
            seq![(T_NONCE, nonce)]
        } else {
            Seq::empty()
        }) + match grant {
            Some(g) => seq![(T_GRANT, g)],
            None => Seq::empty(),
        },
    }
}

/// The canonical TLV container of an envelope.
pub open spec fn envelope_wire(m: EnvelopeModel) -> Seq<u8> {
    tlv_encode(
        T_ENVELOPE,
        tlv_encode(T_FORMAT_VERSION, seq![FORMAT_VERSION]) + tlv_encode(
            T_KIND,
            seq![kind_code(model_kind(m))],
        ) + tlv_encode(T_BODY, tlv_encode_all(body_elements(m))),
    )
}

// ---------------------------------------------------------------------------
// Reading the wire form
// ---------------------------------------------------------------------------

pub open spec fn is_u64_field(t: u64) -> bool {
    t == T_U64_VERSION || t == T_TTL_SECS
}

pub open spec fn is_text_field(t: u64) -> bool {
    t == T_CA_PREFIX || t == T_ID_NAMESPACE || t == T_TOKEN || t == T_KEY_NAME || t == T_NAMESPACE
        || t == T_SCOPE_PATTERN
}

/// The error that reading a body element raises, if any.
pub open spec fn field_error(t: u64, v: Seq<u8>) -> Option<EnvelopeError> {
    if is_u64_field(t) && (v.len() == 0 || v.len() > 8) {
        Some(EnvelopeError::Malformed("u64 field length"))
    } else if is_text_field(t) && !valid_utf8(v) {
        Some(EnvelopeError::Malformed("non-utf8 string field"))
    } else {
        None
    }
}

/// Read the body elements in order; the first failure is the result.
pub open spec fn scan_body(s: Seq<u8>) -> Result<Seq<(u64, Seq<u8>)>, EnvelopeError>
    decreases s.len(),
{
    if s.len() == 0 {
        Ok(Seq::empty())
    } else {
        match tlv_parse(s) {
            None => Err(EnvelopeError::Truncated),
            Some((t, v, n)) => if n == 0 || n > s.len() {
                Err(EnvelopeError::Truncated)
            } else {
                match field_error(t, v) {
                    Some(e) => Err(e),
                    None => match scan_body(s.skip(n as int)) {
                        Err(e) => Err(e),
                        Ok(rest) => Ok(seq![(t, v)] + rest),
                    },
                }
            },
        }
    }
}

/// The value of the last element of type `t`.
pub open spec fn last_value(els: Seq<(u64, Seq<u8>)>, t: u64) -> Option<Seq<u8>>
    decreases els.len(),
{
    if els.len() == 0 {
        None
    } else if els.last().0 == t {
        Some(els.last().1)
    } else {
        last_value(els.drop_last(), t)
    }
}

/// The values of all elements of type `t`, in order.
pub open spec fn values_of(els: Seq<(u64, Seq<u8>)>, t: u64) -> Seq<Seq<u8>>
    decreases els.len(),
{
    if els.len() == 0 {
        Seq::empty()
    } else if els.last().0 == t {
        values_of(els.drop_last(), t).push(els.last().1)
    } else {
        values_of(els.drop_last(), t)
    }
}

pub open spec fn first_byte(v: Option<Seq<u8>>) -> Option<u8> {
    match v {
        Some(b) => if b.len() > 0 {
            Some(b[0])
        } else {
            None
        },
        None => None,
    }
}

pub open spec fn u64_of(v: Seq<u8>) -> u64 {
    be_value(v) as u64
}

pub open spec fn missing<T>(f: &'static str) -> Result<T, EnvelopeError> {
    Err(EnvelopeError::MissingField(f))
}

/// Build the envelope of `kind` from its body elements.
pub open spec fn build_envelope(kind: TrustKind, els: Seq<(u64, Seq<u8>)>) -> Result<EnvelopeModel, EnvelopeError> {
    match kind {
        TrustKind::Anchor => match last_value(els, T_U64_VERSION) {
            None => missing("anchor version"),
            Some(v) => match last_value(els, T_WIRE) {
                None => missing("anchor content"),
                Some(w) => Ok(EnvelopeModel::Anchor { version: u64_of(v), context_content: w }),
            },
        },
        TrustKind::Invite => match last_value(els, T_CA_PREFIX) {
            None => missing("ca prefix"),
            Some(ca) => match last_value(els, T_ID_NAMESPACE) {
                None => missing("identity namespace"),
                Some(ns) => match last_value(els, T_TOKEN) {
                    None => missing("token"),
                    Some(tok) => Ok(
                        EnvelopeModel::Invite {
                            ca_prefix: decode_utf8(ca),
                            identity_namespace: decode_utf8(ns),
                            token: decode_utf8(tok),
                            ttl_secs: match last_value(els, T_TTL_SECS) {
                                Some(t) => Some(u64_of(t)),
                                None => None,
                            },
                        },
                    ),
                },
            },
        },
        TrustKind::Delegation => match last_value(els, T_WIRE) {
            None => missing("delegation wire"),
            Some(w) => match last_value(els, T_PRINCIPAL_PUBKEY) {
                None => missing("principal pubkey"),
                Some(p) => Ok(EnvelopeModel::Delegation { signed_delegation: w, principal_pubkey: p }),
            },
        },
        TrustKind::Recovery => match last_value(els, T_WIRE) {
            None => missing("recovery bundle"),
            Some(w) => Ok(EnvelopeModel::Recovery { bundle: w }),
        },
        TrustKind::Bag => match last_value(els, T_KEY_NAME) {
            None => missing("key name"),
            Some(k) => match last_value(els, T_WIRE) {
                None => missing("safebag"),
                Some(w) => Ok(EnvelopeModel::Bag { key_name: decode_utf8(k), safebag: w }),
            },
        },
        TrustKind::Capability => match first_byte(last_value(els, T_DIRECTION)) {
            None => missing("direction"),
            Some(d) => if d > 1 {
                Err(EnvelopeError::Malformed("capability direction"))
            } else {
                match last_value(els, T_NAMESPACE) {
                    None => missing("capability namespace"),
                    Some(ns) => match last_value(els, T_TTL_SECS) {
                        None => missing("capability ttl"),
                        Some(t) => Ok(
                            EnvelopeModel::Capability {
                                direction: if d == 0 {
                                    CapDirection::Request
                                } else {
                                    CapDirection::Grant
                                },
                                namespace: decode_utf8(ns),
                                scope_patterns: values_of(els, T_SCOPE_PATTERN).map_values(
                                    |p: Seq<u8>| decode_utf8(p),
                                ),
                                ttl_secs: u64_of(t),
                                nonce: match last_value(els, T_NONCE) {
                                    Some(n) => n,
                                    None => Seq::empty(),
                                },
                                grant: last_value(els, T_GRANT),
                            },
                        ),
                    },
                }
            },
        },
    }
}

/// What decoding an envelope body of the given kind gives.
pub open spec fn body_decoding(kind: TrustKind, body: Seq<u8>) -> Result<EnvelopeModel, EnvelopeError> {
    match scan_body(body) {
        Err(e) => Err(e),
        Ok(els) => build_envelope(kind, els),
    }
}

/// What decoding a TLV container gives. Only its first element is read.
pub open spec fn envelope_decoding(wire: Seq<u8>) -> Result<EnvelopeModel, EnvelopeError> {
    match tlv_parse(wire) {
        None => Err(EnvelopeError::Truncated),
        Some((typ, inner, _)) => if typ != T_ENVELOPE {
            Err(EnvelopeError::BadTag(typ))
        } else {
            match tlv_elements(inner) {
                None => Err(EnvelopeError::Truncated),
                Some(els) => match first_byte(last_value(els, T_FORMAT_VERSION)) {
                    None => missing("format version"),
                    Some(f) => if f != FORMAT_VERSION {
                        Err(EnvelopeError::UnsupportedVersion(f))
                    } else {
                        match first_byte(last_value(els, T_KIND)) {
                            None => missing("kind"),
                            Some(k) => match kind_of_code(k) {
                                None => Err(EnvelopeError::UnknownKind(k)),
                                Some(kind) => match last_value(els, T_BODY) {
                                    None => missing("body"),
                                    Some(body) => body_decoding(kind, body),
                                },
                            },
                        }
                    },
                },
            }
        },
    }
}

// ---------------------------------------------------------------------------
// Sequence lemmas
// ---------------------------------------------------------------------------

pub proof fn lemma_encode_all_concat(a: Seq<(u64, Seq<u8>)>, b: Seq<(u64, Seq<u8>)>)
    ensures
        tlv_encode_all(a + b) == tlv_encode_all(a) + tlv_encode_all(b),
    decreases a.len(),
{
    if a.len() == 0 {
        assert(a + b =~= b);
    } else {
        lemma_encode_all_concat(a.drop_first(), b);
        assert((a + b).drop_first() =~= a.drop_first() + b);
    }
}

pub proof fn lemma_encode_all_one(t: u64, v: Seq<u8>)
    ensures
        tlv_encode_all(seq![(t, v)]) == tlv_encode(t, v),
{
    let one = seq![(t, v)];
    assert(one.drop_first() =~= Seq::<(u64, Seq<u8>)>::empty());
    assert(tlv_encode_all(one.drop_first()) == Seq::<u8>::empty());
    assert(one[0] == (t, v));
    assert(tlv_encode_all(one) == tlv_encode(one[0].0, one[0].1) + tlv_encode_all(one.drop_first()));
    assert(tlv_encode(t, v) + Seq::<u8>::empty() =~= tlv_encode(t, v));
}

pub proof fn lemma_last_value_push(els: Seq<(u64, Seq<u8>)>, x: (u64, Seq<u8>), t: u64)
    ensures
        last_value(els.push(x), t) == if x.0 == t {
            Some(x.1)
        } else {
            last_value(els, t)
        },
        values_of(els.push(x), t) == if x.0 == t {
            values_of(els, t).push(x.1)
        } else {
            values_of(els, t)
        },
{
    assert(els.push(x).drop_last() =~= els);
}

pub proof fn lemma_last_value_concat(a: Seq<(u64, Seq<u8>)>, b: Seq<(u64, Seq<u8>)>, t: u64)
    ensures
        last_value(a + b, t) == match last_value(b, t) {
            Some(v) => Some(v),
            None => last_value(a, t),
        },
        values_of(a + b, t) == values_of(a, t) + values_of(b, t),
    decreases b.len(),
{
    if b.len() == 0 {
        assert(a + b =~= a);
        assert(values_of(a, t) + Seq::<Seq<u8>>::empty() =~= values_of(a, t));
    } else {
        lemma_last_value_concat(a, b.drop_last(), t);
        assert((a + b).drop_last() =~= a + b.drop_last());
        assert((a + b).last() == b.last());
        if b.last().0 == t {
            assert(values_of(a, t) + values_of(b.drop_last(), t).push(b.last().1) =~= (values_of(a, t)
                + values_of(b.drop_last(), t)).push(b.last().1));
        }
    }
}

/// Unfold the element split of `s` at `pos`, given the element there.
pub proof fn lemma_elements_step(s: Seq<u8>, pos: int)
    requires
        0 <= pos < s.len(),
        tlv_parse(s.skip(pos)) is Some,
    ensures
        ({
            let (t, v, n) = tlv_parse(s.skip(pos)).unwrap();
            &&& 2 <= n
            &&& pos + n <= s.len()
            &&& tlv_elements(s.skip(pos)) == match tlv_elements(s.skip(pos + n)) {
                None => None,
                Some(rest) => Some(seq![(t, v)] + rest),
            }
            &&& scan_body(s.skip(pos)) == match field_error(t, v) {
                Some(e) => Err(e),
                None => match scan_body(s.skip(pos + n)) {
                    Err(e) => Err(e),
                    Ok(rest) => Ok(seq![(t, v)] + rest),
                },
            }
        }),
{
    let (t, v, n) = tlv_parse(s.skip(pos)).unwrap();
    crate::tlv::lemma_tlv_parse_progress(s.skip(pos));
    assert(s.skip(pos).skip(n as int) =~= s.skip(pos + n));
}

// ---------------------------------------------------------------------------
// Writing
// ---------------------------------------------------------------------------

fn write_u64_tlv(out: &mut Vec<u8>, t: u64, x: u64)
    ensures
        final(out)@ == old(out)@ + tlv_encode(t, u64_be(x)),
{
    let mut b: Vec<u8> = Vec::new();
    push_be(&mut b, x, 8);
    proof {
        assert(b@ =~= u64_be(x));
    }
    write_tlv(out, t, b.as_slice());
}

fn write_text_tlv(out: &mut Vec<u8>, t: u64, s: &String)
    ensures
        final(out)@ == old(out)@ + tlv_encode(t, utf8_bytes(s@)),
{
    let b = s.as_str().as_bytes();
    write_tlv(out, t, b);
}

/// Appending one element to `out` extends its encoded element sequence.
proof fn lemma_extend(before: Seq<u8>, els: Seq<(u64, Seq<u8>)>, t: u64, v: Seq<u8>)
    requires
        true,
    ensures
        before + tlv_encode_all(els) + tlv_encode(t, v) == before + tlv_encode_all(els.push((t, v))),
{
    lemma_encode_all_concat(els, seq![(t, v)]);
    lemma_encode_all_one(t, v);
    assert(els + seq![(t, v)] =~= els.push((t, v)));
    assert(before + tlv_encode_all(els) + tlv_encode(t, v) =~= before + (tlv_encode_all(els)
        + tlv_encode(t, v)));
}

impl TrustEnvelope {
    /// The kind discriminator for this envelope.
    pub fn kind(&self) -> (r: TrustKind)
        ensures
            r == model_kind(self@),
    {
        match self {
            TrustEnvelope::Anchor { .. } => TrustKind::Anchor,
            TrustEnvelope::Invite { .. } => TrustKind::Invite,
            TrustEnvelope::Delegation { .. } => TrustKind::Delegation,
            TrustEnvelope::Recovery { .. } => TrustKind::Recovery,
            TrustEnvelope::Bag { .. } => TrustKind::Bag,
            TrustEnvelope::Capability(_) => TrustKind::Capability,
        }
    }

    fn encode_body(&self, w: &mut Vec<u8>)
        ensures
            final(w)@ == old(w)@ + tlv_encode_all(body_elements(self@)),
    {
        let ghost start = w@;
        let ghost e0 = Seq::<(u64, Seq<u8>)>::empty();
        proof {
            assert(start + tlv_encode_all(e0) =~= start);
        }
        match self {
            TrustEnvelope::Anchor { version, context_content } => {
                write_u64_tlv(w, T_U64_VERSION, *version);
                proof {
                    lemma_extend(start, e0, T_U64_VERSION, u64_be(*version));
                }
                let ghost e1 = e0.push((T_U64_VERSION, u64_be(*version)));
                write_tlv(w, T_WIRE, context_content.as_slice());
                proof {
                    lemma_extend(start, e1, T_WIRE, context_content@);
                    assert(e1.push((T_WIRE, context_content@)) =~= body_elements(self@));
                }
            },
            TrustEnvelope::Invite { ca_prefix, identity_namespace, token, ttl_secs } => {
                write_text_tlv(w, T_CA_PREFIX, ca_prefix);
                proof {
                    lemma_extend(start, e0, T_CA_PREFIX, utf8_bytes(ca_prefix@));
                }
                let ghost e1 = e0.push((T_CA_PREFIX, utf8_bytes(ca_prefix@)));
                write_text_tlv(w, T_ID_NAMESPACE, identity_namespace);
                proof {
                    lemma_extend(start, e1, T_ID_NAMESPACE, utf8_bytes(identity_namespace@));
                }
                let ghost e2 = e1.push((T_ID_NAMESPACE, utf8_bytes(identity_namespace@)));
                write_text_tlv(w, T_TOKEN, token);
                proof {
                    lemma_extend(start, e2, T_TOKEN, utf8_bytes(token@));
                }
                let ghost e3 = e2.push((T_TOKEN, utf8_bytes(token@)));
                match ttl_secs {
                    Some(ttl) => {
                        write_u64_tlv(w, T_TTL_SECS, *ttl);
                        proof {
                            lemma_extend(start, e3, T_TTL_SECS, u64_be(*ttl));
                            assert(e3.push((T_TTL_SECS, u64_be(*ttl))) =~= body_elements(self@));
                        }
                    },
                    None => {
                        proof {
                            assert(e3 =~= body_elements(self@));
                        }
                    },
                }
            },
            TrustEnvelope::Delegation { signed_delegation, principal_pubkey } => {
                write_tlv(w, T_WIRE, signed_delegation.as_slice());
                proof {
                    lemma_extend(start, e0, T_WIRE, signed_delegation@);
                }
                let ghost e1 = e0.push((T_WIRE, signed_delegation@));
                write_tlv(w, T_PRINCIPAL_PUBKEY, principal_pubkey.as_slice());
                proof {
                    lemma_extend(start, e1, T_PRINCIPAL_PUBKEY, principal_pubkey@);
                    assert(e1.push((T_PRINCIPAL_PUBKEY, principal_pubkey@)) =~= body_elements(self@));
                }
            },
            TrustEnvelope::Recovery { bundle } => {
                write_tlv(w, T_WIRE, bundle.as_slice());
                proof {
                    lemma_extend(start, e0, T_WIRE, bundle@);
                    assert(e0.push((T_WIRE, bundle@)) =~= body_elements(self@));
                }
            },
            TrustEnvelope::Bag { key_name, safebag } => {
                write_text_tlv(w, T_KEY_NAME, key_name);
                proof {
                    lemma_extend(start, e0, T_KEY_NAME, utf8_bytes(key_name@));
                }
                let ghost e1 = e0.push((T_KEY_NAME, utf8_bytes(key_name@)));
                write_tlv(w, T_WIRE, safebag.as_slice());
                proof {
                    lemma_extend(start, e1, T_WIRE, safebag@);
                    assert(e1.push((T_WIRE, safebag@)) =~= body_elements(self@));
                }
            },
            TrustEnvelope::Capability(c) => {
                write_tlv(w, T_DIRECTION, &[c.direction.code()]);
                proof {
                    lemma_extend(start, e0, T_DIRECTION, seq![direction_code(c.direction)]);
                }
                let ghost e1 = e0.push((T_DIRECTION, seq![direction_code(c.direction)]));
                write_text_tlv(w, T_NAMESPACE, &c.namespace);
                proof {
                    lemma_extend(start, e1, T_NAMESPACE, utf8_bytes(c.namespace@));
                }
                let ghost e2 = e1.push((T_NAMESPACE, utf8_bytes(c.namespace@)));
                let ghost pats = c.scope_patterns@.map_values(|s: String| s@).map_values(
                    |p: Seq<char>| text_field(T_SCOPE_PATTERN, p),
                );
                let mut i: usize = 0;
                proof {
                    assert(e2 + pats.take(0) =~= e2);
                }
                while i < c.scope_patterns.len()
                    invariant
                        i <= c.scope_patterns@.len(),
                        pats.len() == c.scope_patterns@.len(),
                        pats == c.scope_patterns@.map_values(|s: String| s@).map_values(
                            |p: Seq<char>| text_field(T_SCOPE_PATTERN, p),
                        ),
                        w@ == start + tlv_encode_all(e2 + pats.take(i as int)),
                    decreases c.scope_patterns@.len() - i,
                {
                    write_text_tlv(w, T_SCOPE_PATTERN, &c.scope_patterns[i]);
                    proof {
                        lemma_extend(start, e2 + pats.take(i as int), T_SCOPE_PATTERN, utf8_bytes(c.scope_patterns@[i as int]@));
                        assert(pats[i as int] == (T_SCOPE_PATTERN, utf8_bytes(c.scope_patterns@[i as int]@)));
                        assert((e2 + pats.take(i as int)).push(pats[i as int]) =~= e2 + pats.take(i + 1));
                    }
                    i = i + 1;
                }
                let ghost e3 = e2 + pats;
                proof {
                    assert(pats.take(i as int) =~= pats);
                }
                write_u64_tlv(w, T_TTL_SECS, c.ttl_secs);
                proof {
                    lemma_extend(start, e3, T_TTL_SECS, u64_be(c.ttl_secs));
                }
                let ghost e4 = e3.push((T_TTL_SECS, u64_be(c.ttl_secs)));
                let ghost e5 = if c.nonce@.len() > 0 { e4.push((T_NONCE, c.nonce@)) } else { e4 };
                if c.nonce.len() > 0 {
                    write_tlv(w, T_NONCE, c.nonce.as_slice());
                    proof {
                        lemma_extend(start, e4, T_NONCE, c.nonce@);
                    }
                }
                match &c.grant {
                    Some(g) => {
                        write_tlv(w, T_GRANT, g.as_slice());
                        proof {
                            lemma_extend(start, e5, T_GRANT, g@);
                            assert(e5.push((T_GRANT, g@)) =~= body_elements(self@));
                        }
                    },
                    None => {
                        proof {
                            assert(e5 =~= body_elements(self@));
                        }
                    },
                }
            },
        }
    }

    /// Encode to the canonical TLV container (the `.ndntrust` file form, and
    /// the bytes base64url'd into a URI).
    pub fn encode(&self) -> (r: Vec<u8>)
        ensures
            r@ == envelope_wire(self@),
    {
        let mut inner: Vec<u8> = Vec::new();
        write_tlv(&mut inner, T_FORMAT_VERSION, &[FORMAT_VERSION]);
        write_tlv(&mut inner, T_KIND, &[self.kind().code()]);
        let mut body: Vec<u8> = Vec::new();
        self.encode_body(&mut body);
        write_tlv(&mut inner, T_BODY, body.as_slice());
        let mut out: Vec<u8> = Vec::new();
        write_tlv(&mut out, T_ENVELOPE, inner.as_slice());
        proof {
            assert(body@ =~= tlv_encode_all(body_elements(self@)));
            assert(out@ =~= envelope_wire(self@));
        }
        out
    }
}

// ---------------------------------------------------------------------------
// Reading
// ---------------------------------------------------------------------------

fn read_u64_field(b: &[u8]) -> (r: Result<u64, EnvelopeError>)
    ensures
        if b@.len() == 0 || b@.len() > 8 {
            r == Err::<u64, EnvelopeError>(EnvelopeError::Malformed("u64 field length"))
        } else {
            r == Ok::<u64, EnvelopeError>(u64_of(b@))
        },
{
    if b.len() == 0 || b.len() > 8 {
        return Err(EnvelopeError::Malformed("u64 field length"));
    }
    let v = read_be(b, 0, b.len());
    proof {
        assert(b@.subrange(0, b@.len() as int) =~= b@);
    }
    Ok(v)
}

fn read_str(b: &[u8]) -> (r: Result<String, EnvelopeError>)
    ensures
        match r {
            Ok(s) => valid_utf8(b@) && s@ == decode_utf8(b@),
            Err(e) => !valid_utf8(b@) && e == EnvelopeError::Malformed("non-utf8 string field"),
        },
{
    match utf8_to_string(b) {
        Some(s) => Ok(s),
        None => Err(EnvelopeError::Malformed("non-utf8 string field")),
    }
}

pub open spec fn text_state(o: Option<String>, v: Option<Seq<u8>>) -> bool {
    match v {
        None => o is None,
        Some(b) => o matches Some(s) && s@ == decode_utf8(b),
    }
}

pub open spec fn bytes_state(o: Option<Vec<u8>>, v: Option<Seq<u8>>) -> bool {
    match v {
        None => o is None,
        Some(b) => o matches Some(x) && x@ == b,
    }
}

pub open spec fn u64_state(o: Option<u64>, v: Option<Seq<u8>>) -> bool {
    match v {
        None => o is None,
        Some(b) => o == Some(u64_of(b)),
    }
}

pub open spec fn prepend_scan(
    consumed: Seq<(u64, Seq<u8>)>,
    r: Result<Seq<(u64, Seq<u8>)>, EnvelopeError>,
) -> Result<Seq<(u64, Seq<u8>)>, EnvelopeError> {
    match r {
        Err(e) => Err(e),
        Ok(rest) => Ok(consumed + rest),
    }
}

pub open spec fn prepend_elements(
    consumed: Seq<(u64, Seq<u8>)>,
    r: Option<Seq<(u64, Seq<u8>)>>,
) -> Option<Seq<(u64, Seq<u8>)>> {
    match r {
        None => None,
        Some(rest) => Some(consumed + rest),
    }
}

pub proof fn lemma_prepend_step(consumed: Seq<(u64, Seq<u8>)>, x: (u64, Seq<u8>), r: Result<Seq<(u64, Seq<u8>)>, EnvelopeError>, o: Option<Seq<(u64, Seq<u8>)>>)
    ensures
        prepend_scan(consumed, match r {
            Err(e) => Err(e),
            Ok(rest) => Ok(seq![x] + rest),
        }) == prepend_scan(consumed.push(x), r),
        prepend_elements(consumed, match o {
            None => None,
            Some(rest) => Some(seq![x] + rest),
        }) == prepend_elements(consumed.push(x), o),
{
    match r {
        Err(e) => {},
        Ok(rest) => {
            assert(consumed + (seq![x] + rest) =~= consumed.push(x) + rest);
        },
    }
    match o {
        None => {},
        Some(rest) => {
            assert(consumed + (seq![x] + rest) =~= consumed.push(x) + rest);
        },
    }
}

impl TrustEnvelope {
    /// Decode an envelope body of the given kind.
    pub fn decode_body(kind: TrustKind, body: &[u8]) -> (r: Result<TrustEnvelope, EnvelopeError>)
        ensures
            match body_decoding(kind, body@) {
                Ok(m) => r matches Ok(e) && e@ == m,
                Err(x) => r == Err::<TrustEnvelope, EnvelopeError>(x),
            },
    {
        let mut version: Option<u64> = None;
        let mut wire: Option<Vec<u8>> = None;
        let mut ca_prefix: Option<String> = None;
        let mut id_namespace: Option<String> = None;
        let mut token: Option<String> = None;
        let mut ttl_secs: Option<u64> = None;
        let mut principal_pubkey: Option<Vec<u8>> = None;
        let mut key_name: Option<String> = None;
        let mut namespace: Option<String> = None;
        let mut scope_patterns: Vec<String> = Vec::new();
        let mut nonce: Option<Vec<u8>> = None;
        let mut grant: Option<Vec<u8>> = None;
        let mut direction: Option<u8> = None;
        let ghost mut consumed = Seq::<(u64, Seq<u8>)>::empty();
        let mut pos: usize = 0;
        proof {
            assert(body@.skip(0) =~= body@);
            match scan_body(body@) {
                Err(e) => {},
                Ok(rest) => {
                    assert(consumed + rest =~= rest);
                },
            }
            assert(scope_patterns@.map_values(|s: String| s@) =~= values_of(consumed, T_SCOPE_PATTERN).map_values(
                |p: Seq<u8>| decode_utf8(p),
            ));
        }
        while pos < body.len()
            invariant
                pos <= body@.len(),
                scan_body(body@) == prepend_scan(consumed, scan_body(body@.skip(pos as int))),
                u64_state(version, last_value(consumed, T_U64_VERSION)),
                bytes_state(wire, last_value(consumed, T_WIRE)),
                text_state(ca_prefix, last_value(consumed, T_CA_PREFIX)),
                text_state(id_namespace, last_value(consumed, T_ID_NAMESPACE)),
                text_state(token, last_value(consumed, T_TOKEN)),
                u64_state(ttl_secs, last_value(consumed, T_TTL_SECS)),
                bytes_state(principal_pubkey, last_value(consumed, T_PRINCIPAL_PUBKEY)),
                text_state(key_name, last_value(consumed, T_KEY_NAME)),
                text_state(namespace, last_value(consumed, T_NAMESPACE)),
                scope_patterns@.map_values(|s: String| s@) == values_of(consumed, T_SCOPE_PATTERN).map_values(
                    |p: Seq<u8>| decode_utf8(p),
                ),
                bytes_state(nonce, last_value(consumed, T_NONCE)),
                bytes_state(grant, last_value(consumed, T_GRANT)),
                direction == first_byte(last_value(consumed, T_DIRECTION)),
            decreases body@.len() - pos,
        {
            let sp = match read_tlv(body, pos) {
                Some(sp) => sp,
                None => {
                    return Err(EnvelopeError::Truncated);
                },
            };
            proof {
                lemma_elements_step(body@, pos as int);
            }
            let t = sp.typ;
            let v = slice_to_vec(body, sp.value_start, sp.value_end);
            let ghost x = (t, v@);
            proof {
                lemma_prepend_step(consumed, x, scan_body(body@.skip(sp.value_end as int)), None);
                lemma_last_value_push(consumed, x, T_U64_VERSION);
                lemma_last_value_push(consumed, x, T_WIRE);
                lemma_last_value_push(consumed, x, T_CA_PREFIX);
                lemma_last_value_push(consumed, x, T_ID_NAMESPACE);
                lemma_last_value_push(consumed, x, T_TOKEN);
                lemma_last_value_push(consumed, x, T_TTL_SECS);
                lemma_last_value_push(consumed, x, T_PRINCIPAL_PUBKEY);
                lemma_last_value_push(consumed, x, T_KEY_NAME);
                lemma_last_value_push(consumed, x, T_NAMESPACE);
                lemma_last_value_push(consumed, x, T_SCOPE_PATTERN);
                lemma_last_value_push(consumed, x, T_NONCE);
                lemma_last_value_push(consumed, x, T_GRANT);
                lemma_last_value_push(consumed, x, T_DIRECTION);
            }
            if t == T_U64_VERSION {
                match read_u64_field(v.as_slice()) {
                    Ok(n) => {
                        version = Some(n);
                    },
                    Err(e) => {
                        return Err(e);
                    },
                }
            } else if t == T_WIRE {
                wire = Some(v);
            } else if t == T_CA_PREFIX {
                match read_str(v.as_slice()) {
                    Ok(s) => {
                        ca_prefix = Some(s);
                    },
                    Err(e) => {
                        return Err(e);
                    },
                }
            } else if t == T_ID_NAMESPACE {
                match read_str(v.as_slice()) {
                    Ok(s) => {
                        id_namespace = Some(s);
                    },
                    Err(e) => {
                        return Err(e);
                    },
                }
            } else if t == T_TOKEN {
                match read_str(v.as_slice()) {
                    Ok(s) => {
                        token = Some(s);
                    },
                    Err(e) => {
                        return Err(e);
                    },
                }
            } else if t == T_TTL_SECS {
                match read_u64_field(v.as_slice()) {
                    Ok(n) => {
                        ttl_secs = Some(n);
                    },
                    Err(e) => {
                        return Err(e);
                    },
                }
            } else if t == T_PRINCIPAL_PUBKEY {
                principal_pubkey = Some(v);
            } else if t == T_KEY_NAME {
                match read_str(v.as_slice()) {
                    Ok(s) => {
                        key_name = Some(s);
                    },
                    Err(e) => {
                        return Err(e);
                    },
                }
            } else if t == T_NAMESPACE {
                match read_str(v.as_slice()) {
                    Ok(s) => {
                        namespace = Some(s);
                    },
                    Err(e) => {
                        return Err(e);
                    },
                }
            } else if t == T_SCOPE_PATTERN {
                match read_str(v.as_slice()) {
                    Ok(s) => {
                        let ghost before = scope_patterns@;
                        scope_patterns.push(s);
                        proof {
                            assert(scope_patterns@.map_values(|s: String| s@) =~= before.map_values(
                                |s: String| s@,
                            ).push(decode_utf8(v@)));
                            assert(values_of(consumed.push(x), T_SCOPE_PATTERN).map_values(
                                |p: Seq<u8>| decode_utf8(p),
                            ) =~= values_of(consumed, T_SCOPE_PATTERN).map_values(
                                |p: Seq<u8>| decode_utf8(p),
                            ).push(decode_utf8(v@)));
                        }
                    },
                    Err(e) => {
                        return Err(e);
                    },
                }
            } else if t == T_NONCE {
                nonce = Some(v);
            } else if t == T_GRANT {
                grant = Some(v);
            } else if t == T_DIRECTION {
                direction = if v.len() > 0 {
                    Some(v[0])
                } else {
                    None
                };
            }
            proof {
                consumed = consumed.push(x);
            }
            pos = sp.value_end;
        }
        proof {
            assert(body@.skip(pos as int) =~= Seq::<u8>::empty());
            assert(consumed + Seq::<(u64, Seq<u8>)>::empty() =~= consumed);
        }
        match kind {
            TrustKind::Anchor => {
                let version = match version {
                    Some(x) => x,
                    None => return Err(EnvelopeError::MissingField("anchor version")),
                };
                let context_content = match wire {
                    Some(x) => x,
                    None => return Err(EnvelopeError::MissingField("anchor content")),
                };
                Ok(TrustEnvelope::Anchor { version, context_content })
            },
            TrustKind::Invite => {
                let ca_prefix = match ca_prefix {
                    Some(x) => x,
                    None => return Err(EnvelopeError::MissingField("ca prefix")),
                };
                let identity_namespace = match id_namespace {
                    Some(x) => x,
                    None => return Err(EnvelopeError::MissingField("identity namespace")),
                };
                let token = match token {
                    Some(x) => x,
                    None => return Err(EnvelopeError::MissingField("token")),
                };
                Ok(TrustEnvelope::Invite { ca_prefix, identity_namespace, token, ttl_secs })
            },
            TrustKind::Delegation => {
                let signed_delegation = match wire {
                    Some(x) => x,
                    None => return Err(EnvelopeError::MissingField("delegation wire")),
                };
                let principal_pubkey = match principal_pubkey {
                    Some(x) => x,
                    None => return Err(EnvelopeError::MissingField("principal pubkey")),
                };
                Ok(TrustEnvelope::Delegation { signed_delegation, principal_pubkey })
            },
            TrustKind::Recovery => {
                let bundle = match wire {
                    Some(x) => x,
                    None => return Err(EnvelopeError::MissingField("recovery bundle")),
                };
                Ok(TrustEnvelope::Recovery { bundle })
            },
            TrustKind::Bag => {
                let key_name = match key_name {
                    Some(x) => x,
                    None => return Err(EnvelopeError::MissingField("key name")),
                };
                let safebag = match wire {
                    Some(x) => x,
                    None => return Err(EnvelopeError::MissingField("safebag")),
                };
                Ok(TrustEnvelope::Bag { key_name, safebag })
            },
            TrustKind::Capability => {
                let d = match direction {
                    Some(x) => x,
                    None => return Err(EnvelopeError::MissingField("direction")),
                };
                let direction = match CapDirection::from_code(d) {
                    Ok(x) => x,
                    Err(e) => return Err(e),
                };
                let namespace = match namespace {
                    Some(x) => x,
                    None => return Err(EnvelopeError::MissingField("capability namespace")),
                };
                let ttl_secs = match ttl_secs {
                    Some(x) => x,
                    None => return Err(EnvelopeError::MissingField("capability ttl")),
                };
                let nonce = match nonce {
                    Some(x) => x,
                    None => Vec::new(),
                };
                Ok(
                    TrustEnvelope::Capability(
                        Capability { direction, namespace, scope_patterns, ttl_secs, nonce, grant },
                    ),
                )
            },
        }
    }

    /// Decode the canonical TLV container. Only the first element of `wire`
    /// is read.
    pub fn decode(wire: &[u8]) -> (r: Result<TrustEnvelope, EnvelopeError>)
        ensures
            match envelope_decoding(wire@) {
                Ok(m) => r matches Ok(e) && e@ == m,
                Err(x) => r == Err::<TrustEnvelope, EnvelopeError>(x),
            },
    {
        proof {
            assert(wire@.skip(0) =~= wire@);
        }
        let outer = match read_tlv(wire, 0) {
            Some(sp) => sp,
            None => return Err(EnvelopeError::Truncated),
        };
        if outer.typ != T_ENVELOPE {
            return Err(EnvelopeError::BadTag(outer.typ));
        }
        let inner = slice_to_vec(wire, outer.value_start, outer.value_end);
        let mut fmt: Option<u8> = None;
        let mut kind: Option<u8> = None;
        let mut body_bytes: Option<Vec<u8>> = None;
        let ghost mut consumed = Seq::<(u64, Seq<u8>)>::empty();
        let mut pos: usize = 0;
        proof {
            assert(inner@.skip(0) =~= inner@);
            match tlv_elements(inner@) {
                None => {},
                Some(rest) => {
                    assert(consumed + rest =~= rest);
                },
            }
        }
        while pos < inner.len()
            invariant
                pos <= inner@.len(),
                tlv_parse(wire@) matches Some((typ, iv, _)) && typ == T_ENVELOPE && iv == inner@,
                tlv_elements(inner@) == prepend_elements(consumed, tlv_elements(inner@.skip(pos as int))),
                fmt == first_byte(last_value(consumed, T_FORMAT_VERSION)),
                kind == first_byte(last_value(consumed, T_KIND)),
                bytes_state(body_bytes, last_value(consumed, T_BODY)),
            decreases inner@.len() - pos,
        {
            let sp = match read_tlv(inner.as_slice(), pos) {
                Some(sp) => sp,
                None => {
                    proof {
                        assert(inner@.skip(pos as int).len() > 0);
                        assert(tlv_elements(inner@.skip(pos as int)) is None);
                    }
                    return Err(EnvelopeError::Truncated);
                },
            };
            proof {
                lemma_elements_step(inner@, pos as int);
            }
            let t = sp.typ;
            let v = slice_to_vec(inner.as_slice(), sp.value_start, sp.value_end);
            let ghost x = (t, v@);
            proof {
                lemma_prepend_step(consumed, x, Ok(Seq::empty()), tlv_elements(inner@.skip(sp.value_end as int)));
                lemma_last_value_push(consumed, x, T_FORMAT_VERSION);
                lemma_last_value_push(consumed, x, T_KIND);
                lemma_last_value_push(consumed, x, T_BODY);
            }
            if t == T_FORMAT_VERSION {
                fmt = if v.len() > 0 {
                    Some(v[0])
                } else {
                    None
                };
            } else if t == T_KIND {
                kind = if v.len() > 0 {
                    Some(v[0])
                } else {
                    None
                };
            } else if t == T_BODY {
                body_bytes = Some(v);
            }
            proof {
                consumed = consumed.push(x);
            }
            pos = sp.value_end;
        }
        proof {
            assert(inner@.skip(pos as int) =~= Seq::<u8>::empty());
            assert(consumed + Seq::<(u64, Seq<u8>)>::empty() =~= consumed);
        }
        let fmt = match fmt {
            Some(f) => f,
            None => return Err(EnvelopeError::MissingField("format version")),
        };
        if fmt != FORMAT_VERSION {
            return Err(EnvelopeError::UnsupportedVersion(fmt));
        }
        let k = match kind {
            Some(k) => k,
            None => return Err(EnvelopeError::MissingField("kind")),
        };
        let kind = match TrustKind::from_code(k) {
            Ok(k) => k,
            Err(e) => return Err(e),
        };
        let body = match body_bytes {
            Some(b) => b,
            None => return Err(EnvelopeError::MissingField("body")),
        };
        TrustEnvelope::decode_body(kind, body.as_slice())
    }
}

// ---------------------------------------------------------------------------
// The decoding law
// ---------------------------------------------------------------------------

/// Every element has a representable length and reads without error.
pub open spec fn readable(els: Seq<(u64, Seq<u8>)>) -> bool {
    forall|i: int|
        0 <= i < els.len() ==> #[trigger] els[i].1.len() <= u64::MAX && field_error(
            els[i].0,
            els[i].1,
        ) is None
}

proof fn lemma_readable_tail(els: Seq<(u64, Seq<u8>)>)
    requires
        readable(els),
        els.len() > 0,
    ensures
        readable(els.drop_first()),
        els[0].1.len() <= u64::MAX,
        field_error(els[0].0, els[0].1) is None,
{
    assert forall|i: int| 0 <= i < els.drop_first().len() implies #[trigger] els.drop_first()[i].1.len()
        <= u64::MAX && field_error(els.drop_first()[i].0, els.drop_first()[i].1) is None by {
        assert(els.drop_first()[i] == els[i + 1]);
    }
}

proof fn lemma_scan_step(t: u64, v: Seq<u8>, tail: Seq<u8>)
    requires
        v.len() <= u64::MAX,
        field_error(t, v) is None,
    ensures
        scan_body(tlv_encode(t, v) + tail) == match scan_body(tail) {
            Err(e) => Err(e),
            Ok(rest) => Ok(seq![(t, v)] + rest),
        },
{
    let head = tlv_encode(t, v);
    let s = head + tail;
    lemma_tlv_roundtrip(t, v, tail);
    assert(s.skip(0) =~= s);
    lemma_elements_step(s, 0);
    assert(s.skip(head.len() as int) =~= tail);
}

proof fn lemma_scan_roundtrip(els: Seq<(u64, Seq<u8>)>)
    requires
        readable(els),
    ensures
        scan_body(tlv_encode_all(els)) == Ok::<Seq<(u64, Seq<u8>)>, EnvelopeError>(els),
    decreases els.len(),
{
    if els.len() == 0 {
        assert(tlv_encode_all(els) == Seq::<u8>::empty());
        assert(els =~= Seq::<(u64, Seq<u8>)>::empty());
    } else {
        assert(tlv_encode_all(els) == tlv_encode(els[0].0, els[0].1) + tlv_encode_all(els.drop_first()));
        lemma_readable_tail(els);
        lemma_scan_roundtrip(els.drop_first());
        lemma_scan_step(els[0].0, els[0].1, tlv_encode_all(els.drop_first()));
        assert(seq![(els[0].0, els[0].1)] + els.drop_first() =~= els);
    }
}

proof fn lemma_lv1(x: (u64, Seq<u8>), t: u64)
    ensures
        last_value(seq![x], t) == if x.0 == t {
            Some(x.1)
        } else {
            None::<Seq<u8>>
        },
        values_of(seq![x], t) == if x.0 == t {
            seq![x.1]
        } else {
            Seq::<Seq<u8>>::empty()
        },
{
    let e = Seq::<(u64, Seq<u8>)>::empty();
    assert(e.push(x) =~= seq![x]);
    lemma_last_value_push(e, x, t);
    assert(Seq::<Seq<u8>>::empty().push(x.1) =~= seq![x.1]);
}

proof fn lemma_lv2(x: (u64, Seq<u8>), y: (u64, Seq<u8>), t: u64)
    ensures
        last_value(seq![x, y], t) == if y.0 == t {
            Some(y.1)
        } else {
            last_value(seq![x], t)
        },
        values_of(seq![x, y], t) == if y.0 == t {
            values_of(seq![x], t).push(y.1)
        } else {
            values_of(seq![x], t)
        },
{
    assert(seq![x].push(y) =~= seq![x, y]);
    lemma_last_value_push(seq![x], y, t);
}

proof fn lemma_u64_be(x: u64)
    ensures
        u64_be(x).len() == 8,
        u64_of(u64_be(x)) == x,
{
    lemma_pow256_values();
    lemma_be_roundtrip(x as nat, 8);
}

proof fn lemma_text(p: Seq<char>)
    ensures
        valid_utf8(utf8_bytes(p)),
        decode_utf8(utf8_bytes(p)) == p,
{
    crate::text::lemma_utf8_roundtrip(p);
}

pub open spec fn pattern_elements(ps: Seq<Seq<char>>) -> Seq<(u64, Seq<u8>)> {
    ps.map_values(|p: Seq<char>| text_field(T_SCOPE_PATTERN, p))
}

proof fn lemma_patterns(ps: Seq<Seq<char>>, t: u64)
    ensures
        t != T_SCOPE_PATTERN ==> last_value(pattern_elements(ps), t) is None,
        values_of(pattern_elements(ps), T_SCOPE_PATTERN).map_values(|v: Seq<u8>| decode_utf8(v)) == ps,
    decreases ps.len(),
{
    let els = pattern_elements(ps);
    if ps.len() > 0 {
        let q = ps.drop_last();
        lemma_patterns(q, t);
        assert(els.drop_last() =~= pattern_elements(q));
        assert(els.last() == text_field(T_SCOPE_PATTERN, ps.last()));
        lemma_text(ps.last());
        let vq = values_of(pattern_elements(q), T_SCOPE_PATTERN);
        assert(values_of(els, T_SCOPE_PATTERN) == vq.push(utf8_bytes(ps.last())));
        assert(vq.push(utf8_bytes(ps.last())).map_values(|v: Seq<u8>| decode_utf8(v)) =~= vq.map_values(
            |v: Seq<u8>| decode_utf8(v),
        ).push(ps.last()));
        assert(q.push(ps.last()) =~= ps);
    } else {
        assert(values_of(els, T_SCOPE_PATTERN).map_values(|v: Seq<u8>| decode_utf8(v)) =~= ps);
    }
}

proof fn lemma_body_readable(m: EnvelopeModel)
    requires
        forall|i: int| 0 <= i < body_elements(m).len() ==> #[trigger] body_elements(m)[i].1.len() <= u64::MAX,
    ensures
        readable(body_elements(m)),
{
    let els = body_elements(m);
    match m {
        EnvelopeModel::Anchor { version, .. } => {
            lemma_u64_be(version);
        },
        EnvelopeModel::Invite { ca_prefix, identity_namespace, token, ttl_secs } => {
            lemma_text(ca_prefix);
            lemma_text(identity_namespace);
            lemma_text(token);
            if let Some(t) = ttl_secs {
                lemma_u64_be(t);
            }
        },
        EnvelopeModel::Bag { key_name, .. } => {
            lemma_text(key_name);
        },
        EnvelopeModel::Capability { namespace, scope_patterns, ttl_secs, .. } => {
            lemma_text(namespace);
            lemma_u64_be(ttl_secs);
            assert forall|i: int| 2 <= i < 2 + scope_patterns.len() implies field_error(
                #[trigger] els[i].0,
                els[i].1,
            ) is None by {
                lemma_text(scope_patterns[i - 2]);
            }
        },
        _ => {},
    }
}

proof fn lemma_invite_build(m: EnvelopeModel)
    requires
        m is Invite,
    ensures
        build_envelope(TrustKind::Invite, body_elements(m)) == Ok::<EnvelopeModel, EnvelopeError>(m),
{
    if let EnvelopeModel::Invite { ca_prefix, identity_namespace, token, ttl_secs } = m {
        lemma_text(ca_prefix);
        lemma_text(identity_namespace);
        lemma_text(token);
        let x1 = text_field(T_CA_PREFIX, ca_prefix);
        let x2 = text_field(T_ID_NAMESPACE, identity_namespace);
        let x3 = text_field(T_TOKEN, token);
        let a = seq![x1, x2, x3];
        assert(seq![x1, x2].push(x3) =~= a);
        let tail = match ttl_secs {
            Some(t) => seq![(T_TTL_SECS, u64_be(t))],
            None => Seq::<(u64, Seq<u8>)>::empty(),
        };
        assert(body_elements(m) == a + tail);
        assert forall|t: u64| #![trigger last_value(a + tail, t)]
            t == T_CA_PREFIX || t == T_ID_NAMESPACE || t == T_TOKEN || t == T_TTL_SECS implies last_value(a + tail, t) == match last_value(tail, t) {
                Some(v) => Some(v),
                None => if t == T_TOKEN {
                    Some(x3.1)
                } else if t == T_ID_NAMESPACE {
                    Some(x2.1)
                } else if t == T_CA_PREFIX {
                    Some(x1.1)
                } else {
                    None::<Seq<u8>>
                },
            } by {
            lemma_last_value_concat(a, tail, t);
            lemma_last_value_push(seq![x1, x2], x3, t);
            lemma_lv2(x1, x2, t);
            lemma_lv1(x1, t);
        }
        match ttl_secs {
            Some(tt) => {
                lemma_u64_be(tt);
                lemma_lv1((T_TTL_SECS, u64_be(tt)), T_CA_PREFIX);
                lemma_lv1((T_TTL_SECS, u64_be(tt)), T_ID_NAMESPACE);
                lemma_lv1((T_TTL_SECS, u64_be(tt)), T_TOKEN);
                lemma_lv1((T_TTL_SECS, u64_be(tt)), T_TTL_SECS);
            },
            None => {},
        }
        assert(last_value(a + tail, T_CA_PREFIX) == Some(x1.1));
        assert(last_value(a + tail, T_ID_NAMESPACE) == Some(x2.1));
        assert(last_value(a + tail, T_TOKEN) == Some(x3.1));
    }
}

/// The last values in the body of a capability.
proof fn lemma_capability_lv(
    a: Seq<(u64, Seq<u8>)>,
    p: Seq<(u64, Seq<u8>)>,
    tt: Seq<(u64, Seq<u8>)>,
    n: Seq<(u64, Seq<u8>)>,
    g: Seq<(u64, Seq<u8>)>,
    t: u64,
)
    ensures
        last_value(a + p + (tt + n + g), t) == match last_value(g, t) {
            Some(v) => Some(v),
            None => match last_value(n, t) {
                Some(v) => Some(v),
                None => match last_value(tt, t) {
                    Some(v) => Some(v),
                    None => match last_value(p, t) {
                        Some(v) => Some(v),
                        None => last_value(a, t),
                    },
                },
            },
        },
        values_of(a + p + (tt + n + g), t) == values_of(a, t) + values_of(p, t) + (values_of(tt, t)
            + values_of(n, t) + values_of(g, t)),
{
    lemma_last_value_concat(a + p, tt + n + g, t);
    lemma_last_value_concat(a, p, t);
    lemma_last_value_concat(tt + n, g, t);
    lemma_last_value_concat(tt, n, t);
}

proof fn lemma_capability_build(m: EnvelopeModel)
    requires
        m is Capability,
    ensures
        build_envelope(TrustKind::Capability, body_elements(m)) == Ok::<EnvelopeModel, EnvelopeError>(m),
{
    if let EnvelopeModel::Capability { direction, namespace, scope_patterns, ttl_secs, nonce, grant } = m {
        let els = body_elements(m);
        lemma_text(namespace);
        lemma_u64_be(ttl_secs);
        let xd = (T_DIRECTION, seq![direction_code(direction)]);
        let xn = text_field(T_NAMESPACE, namespace);
        let xt = (T_TTL_SECS, u64_be(ttl_secs));
        let a = seq![xd, xn];
        let p = pattern_elements(scope_patterns);
        let n = if nonce.len() > 0 {
            seq![(T_NONCE, nonce)]
        } else {
            Seq::<(u64, Seq<u8>)>::empty()
        };
        let g = match grant {
            Some(x) => seq![(T_GRANT, x)],
            None => Seq::<(u64, Seq<u8>)>::empty(),
        };
        let tt = seq![xt];
        assert(els =~= a + p + (tt + n + g));
        // direction
        lemma_capability_lv(a, p, tt, n, g, T_DIRECTION);
        lemma_patterns(scope_patterns, T_DIRECTION);
        lemma_lv2(xd, xn, T_DIRECTION);
        lemma_lv1(xd, T_DIRECTION);
        lemma_lv1(xt, T_DIRECTION);
        if nonce.len() > 0 {
            lemma_lv1((T_NONCE, nonce), T_DIRECTION);
        }
        if let Some(x) = grant {
            lemma_lv1((T_GRANT, x), T_DIRECTION);
        }
        assert(last_value(els, T_DIRECTION) == Some(seq![direction_code(direction)]));
        // namespace
        lemma_capability_lv(a, p, tt, n, g, T_NAMESPACE);
        lemma_patterns(scope_patterns, T_NAMESPACE);
        lemma_lv2(xd, xn, T_NAMESPACE);
        lemma_lv1(xt, T_NAMESPACE);
        if nonce.len() > 0 {
            lemma_lv1((T_NONCE, nonce), T_NAMESPACE);
        }
        if let Some(x) = grant {
            lemma_lv1((T_GRANT, x), T_NAMESPACE);
        }
        assert(last_value(els, T_NAMESPACE) == Some(xn.1));
        // ttl
        lemma_capability_lv(a, p, tt, n, g, T_TTL_SECS);
        lemma_lv1(xt, T_TTL_SECS);
        if nonce.len() > 0 {
            lemma_lv1((T_NONCE, nonce), T_TTL_SECS);
        }
        if let Some(x) = grant {
            lemma_lv1((T_GRANT, x), T_TTL_SECS);
        }
        assert(last_value(els, T_TTL_SECS) == Some(xt.1));
        // nonce
        lemma_capability_lv(a, p, tt, n, g, T_NONCE);
        lemma_patterns(scope_patterns, T_NONCE);
        lemma_lv2(xd, xn, T_NONCE);
        lemma_lv1(xd, T_NONCE);
        lemma_lv1(xt, T_NONCE);
        if nonce.len() > 0 {
            lemma_lv1((T_NONCE, nonce), T_NONCE);
        }
        if let Some(x) = grant {
            lemma_lv1((T_GRANT, x), T_NONCE);
        }
        assert(last_value(els, T_NONCE) == if nonce.len() > 0 {
            Some(nonce)
        } else {
            None::<Seq<u8>>
        });
        if nonce.len() == 0 {
            assert(nonce =~= Seq::<u8>::empty());
        }
        // grant
        lemma_capability_lv(a, p, tt, n, g, T_GRANT);
        lemma_patterns(scope_patterns, T_GRANT);
        lemma_lv2(xd, xn, T_GRANT);
        lemma_lv1(xd, T_GRANT);
        lemma_lv1(xt, T_GRANT);
        if nonce.len() > 0 {
            lemma_lv1((T_NONCE, nonce), T_GRANT);
        }
        if let Some(x) = grant {
            lemma_lv1((T_GRANT, x), T_GRANT);
        }
        assert(last_value(els, T_GRANT) == grant);
        // scope patterns
        lemma_capability_lv(a, p, tt, n, g, T_SCOPE_PATTERN);
        lemma_patterns(scope_patterns, T_SCOPE_PATTERN);
        lemma_lv2(xd, xn, T_SCOPE_PATTERN);
        lemma_lv1(xd, T_SCOPE_PATTERN);
        lemma_lv1(xt, T_SCOPE_PATTERN);
        if nonce.len() > 0 {
            lemma_lv1((T_NONCE, nonce), T_SCOPE_PATTERN);
        }
        if let Some(x) = grant {
            lemma_lv1((T_GRANT, x), T_SCOPE_PATTERN);
        }
        assert(values_of(els, T_SCOPE_PATTERN) =~= values_of(p, T_SCOPE_PATTERN));
    }
}

proof fn lemma_build_roundtrip(m: EnvelopeModel)
    ensures
        build_envelope(model_kind(m), body_elements(m)) == Ok::<EnvelopeModel, EnvelopeError>(m),
{
    match m {
        EnvelopeModel::Anchor { version, context_content } => {
            lemma_u64_be(version);
            let x = (T_U64_VERSION, u64_be(version));
            let y = (T_WIRE, context_content);
            lemma_lv2(x, y, T_U64_VERSION);
            lemma_lv1(x, T_U64_VERSION);
            lemma_lv2(x, y, T_WIRE);
        },
        EnvelopeModel::Invite { .. } => {
            lemma_invite_build(m);
        },
        EnvelopeModel::Delegation { signed_delegation, principal_pubkey } => {
            let x = (T_WIRE, signed_delegation);
            let y = (T_PRINCIPAL_PUBKEY, principal_pubkey);
            lemma_lv2(x, y, T_WIRE);
            lemma_lv1(x, T_WIRE);
            lemma_lv2(x, y, T_PRINCIPAL_PUBKEY);
        },
        EnvelopeModel::Recovery { bundle } => {
            lemma_lv1((T_WIRE, bundle), T_WIRE);
        },
        EnvelopeModel::Bag { key_name, safebag } => {
            lemma_text(key_name);
            let x = text_field(T_KEY_NAME, key_name);
            let y = (T_WIRE, safebag);
            lemma_lv2(x, y, T_KEY_NAME);
            lemma_lv1(x, T_KEY_NAME);
            lemma_lv2(x, y, T_WIRE);
        },
        EnvelopeModel::Capability { .. } => {
            lemma_capability_build(m);
        },
    }
}

/// The container of any envelope holds its format version, kind and body.
#[verifier::rlimit(50)]
proof fn lemma_container(m: EnvelopeModel)
    requires
        tlv_encode_all(body_elements(m)).len() + 64 <= u64::MAX,
    ensures
        envelope_decoding(envelope_wire(m)) == body_decoding(model_kind(m), tlv_encode_all(body_elements(m))),
{
    let b = tlv_encode_all(body_elements(m));
    let k = model_kind(m);
    let e1 = (T_FORMAT_VERSION, seq![FORMAT_VERSION]);
    let e2 = (T_KIND, seq![kind_code(k)]);
    let e3 = (T_BODY, b);
    let outer_els = seq![e1, e2, e3];
    let inner = tlv_encode(e1.0, e1.1) + tlv_encode(e2.0, e2.1) + tlv_encode(e3.0, e3.1);
    lemma_encode_all_one(e3.0, e3.1);
    lemma_encode_all_one(e2.0, e2.1);
    lemma_encode_all_concat(seq![e2], seq![e3]);
    lemma_encode_all_one(e1.0, e1.1);
    lemma_encode_all_concat(seq![e1], seq![e2] + seq![e3]);
    assert(seq![e1] + (seq![e2] + seq![e3]) =~= outer_els);
    assert(seq![e2] + seq![e3] =~= seq![e2, e3]);
    assert(tlv_encode_all(outer_els) =~= inner);
    crate::tlv::lemma_varnum_roundtrip(T_BODY, Seq::empty());
    crate::tlv::lemma_varnum_roundtrip(b.len() as u64, Seq::empty());
    crate::tlv::lemma_varnum_roundtrip(T_KIND, Seq::empty());
    crate::tlv::lemma_varnum_roundtrip(T_FORMAT_VERSION, Seq::empty());
    crate::tlv::lemma_varnum_roundtrip(1, Seq::empty());
    assert(inner.len() <= u64::MAX);
    assert forall|i: int| 0 <= i < outer_els.len() implies #[trigger] outer_els[i].1.len() <= u64::MAX by {}
    lemma_tlv_elements_roundtrip(outer_els);
    lemma_tlv_roundtrip(T_ENVELOPE, inner, Seq::empty());
    assert(envelope_wire(m) + Seq::<u8>::empty() =~= envelope_wire(m));
    assert(outer_els.drop_last() =~= seq![e1, e2]);
    assert(outer_els.drop_last().drop_last() =~= seq![e1]);
    assert(last_value(outer_els, T_BODY) == Some(b));
    assert(last_value(outer_els.drop_last(), T_KIND) == Some(e2.1));
    assert(last_value(outer_els, T_KIND) == Some(e2.1));
    assert(last_value(outer_els.drop_last().drop_last(), T_FORMAT_VERSION) == Some(e1.1));
    assert(last_value(outer_els.drop_last(), T_FORMAT_VERSION) == Some(e1.1));
    assert(last_value(outer_els, T_FORMAT_VERSION) == Some(e1.1));
}

/// Decoding the container of any envelope gives that envelope back (when its
/// encoding is representable: every length fits in 64 bits).
pub proof fn lemma_envelope_roundtrip(m: EnvelopeModel)
    requires
        forall|i: int| 0 <= i < body_elements(m).len() ==> #[trigger] body_elements(m)[i].1.len() <= u64::MAX,
        tlv_encode_all(body_elements(m)).len() + 64 <= u64::MAX,
    ensures
        envelope_decoding(envelope_wire(m)) == Ok::<EnvelopeModel, EnvelopeError>(m),
{
    lemma_container(m);
    lemma_body_readable(m);
    lemma_scan_roundtrip(body_elements(m));
    lemma_build_roundtrip(m);
}

// ---------------------------------------------------------------------------
// URIs
// ---------------------------------------------------------------------------

pub open spec fn scheme_text() -> Seq<char> {
    seq!['n', 'd', 'n', '-', 't', 'r', 'u', 's', 't', ':', '/', '/']
}

pub open spec fn legacy_tag() -> Seq<char> {
    seq!['n', 'd', 'n', '-', 'c', 't', 'x', ':', '1', ':']
}

pub open spec fn https_text() -> Seq<char> {
    seq!['h', 't', 't', 'p', 's', ':', '/', '/']
}

pub open spec fn http_text() -> Seq<char> {
    seq!['h', 't', 't', 'p', ':', '/', '/']
}

pub open spec fn mirror_marker() -> Seq<char> {
    seq!['/', 't', '/']
}

pub open spec fn starts_with(t: Seq<char>, p: Seq<char>) -> bool {
    p.len() <= t.len() && t.take(p.len() as int) == p
}

pub open spec fn contains_text(t: Seq<char>, p: Seq<char>) -> bool {
    exists|i: int| 0 <= i && i + p.len() <= t.len() && #[trigger] t.subrange(i, i + p.len()) == p
}

/// Index of the first `c` in `t`, or `t.len()`.
pub open spec fn char_index(t: Seq<char>, c: char) -> nat
    decreases t.len(),
{
    if t.len() == 0 {
        0
    } else if t[0] == c {
        0
    } else {
        1 + char_index(t.drop_first(), c)
    }
}

pub open spec fn is_digit_char(c: char) -> bool {
    '0' <= c <= '9'
}

pub open spec fn char_digits_value(d: Seq<char>) -> nat
    decreases d.len(),
{
    if d.len() == 0 {
        0
    } else {
        char_digits_value(d.drop_last()) * 10 + (d.last() as nat - '0' as nat) as nat
    }
}

pub open spec fn sign_stripped(c: Seq<char>) -> Seq<char> {
    if c.len() > 0 && c[0] == '+' {
        c.drop_first()
    } else {
        c
    }
}

pub open spec fn all_digit_chars(d: Seq<char>) -> bool {
    forall|i: int| 0 <= i < d.len() ==> is_digit_char(#[trigger] d[i])
}

/// `str::parse::<u64>`: an optional `+`, then one or more decimal digits
/// whose value fits in 64 bits.
pub open spec fn parse_u64_text(c: Seq<char>) -> Option<u64> {
    let d = sign_stripped(c);
    if d.len() == 0 || !all_digit_chars(d) || char_digits_value(d) > u64::MAX {
        None
    } else {
        Some(char_digits_value(d) as u64)
    }
}

/// The canonical scannable URI of an envelope, given the base64url text of
/// its container.
pub open spec fn envelope_uri(m: EnvelopeModel, b64: Seq<char>) -> Seq<char> {
    scheme_text() + kind_text(model_kind(m)) + seq!['/'] + b64
}

/// The base64url payload of a non-legacy URI.
pub open spec fn uri_payload(t: Seq<char>) -> Result<Seq<char>, EnvelopeError> {
    if starts_with(t, scheme_text()) {
        let rest = t.skip(12);
        let k = char_index(rest, '/');
        if k >= rest.len() {
            Err(EnvelopeError::MalformedUri)
        } else {
            Ok(rest.skip(k as int + 1))
        }
    } else if (starts_with(t, https_text()) || starts_with(t, http_text())) && contains_text(t, mirror_marker()) {
        let k = char_index(t, '#');
        if k >= t.len() {
            Err(EnvelopeError::MalformedUri)
        } else {
            Ok(t.skip(k as int + 1))
        }
    } else {
        Err(EnvelopeError::UnknownScheme)
    }
}

/// What parsing a URI (any supported carriage) gives.
pub open spec fn uri_decoding(c: Seq<char>) -> Result<EnvelopeModel, EnvelopeError> {
    let t = trimmed(c);
    if starts_with(t, legacy_tag()) {
        let rest = t.skip(10);
        let k = char_index(rest, ':');
        if k >= rest.len() {
            Err(EnvelopeError::MalformedUri)
        } else {
            match parse_u64_text(rest.take(k as int)) {
                None => Err(EnvelopeError::MalformedUri),
                Some(version) => match b64url_decoding(utf8_bytes(trimmed(rest.skip(k as int + 1)))) {
                    None => Err(EnvelopeError::BadBase64),
                    Some(content) => Ok(EnvelopeModel::Anchor { version, context_content: content }),
                },
            }
        }
    } else {
        match uri_payload(t) {
            Err(e) => Err(e),
            Ok(b) => match b64url_decoding(utf8_bytes(trimmed(b))) {
                None => Err(EnvelopeError::BadBase64),
                Some(w) => envelope_decoding(w),
            },
        }
    }
}

/// The body of the envelope is representable: its lengths fit in 64 bits.
pub open spec fn body_fits(m: EnvelopeModel) -> bool {
    &&& forall|i: int| 0 <= i < body_elements(m).len() ==> #[trigger] body_elements(m)[i].1.len() <= u64::MAX
    &&& tlv_encode_all(body_elements(m)).len() + 64 <= u64::MAX
}

fn has_prefix(t: &str, p: &str) -> (r: bool)
    ensures
        r == starts_with(t@, p@),
{
    let n = t.unicode_len();
    let m = p.unicode_len();
    if m > n {
        return false;
    }
    let mut i: usize = 0;
    while i < m
        invariant
            i <= m <= n,
            n == t@.len(),
            m == p@.len(),
            forall|k: int| 0 <= k < i ==> t@[k] == p@[k],
        decreases m - i,
    {
        if t.get_char(i) != p.get_char(i) {
            proof {
                assert(t@.take(m as int)[i as int] != p@[i as int]);
            }
            return false;
        }
        i = i + 1;
    }
    proof {
        assert(t@.take(m as int) =~= p@);
    }
    true
}

fn contains_str(t: &str, p: &str) -> (r: bool)
    ensures
        r == contains_text(t@, p@),
{
    let n = t.unicode_len();
    let m = p.unicode_len();
    if m > n {
        return false;
    }
    let mut i: usize = 0;
    while i <= n - m
        invariant
            m <= n,
            n == t@.len(),
            m == p@.len(),
            forall|j: int| 0 <= j < i ==> #[trigger] t@.subrange(j, j + m) != p@,
        decreases n + 1 - i,
    {
        let mut k: usize = 0;
        let mut same = true;
        while k < m
            invariant
                k <= m,
                i + m <= n,
                n == t@.len(),
                m == p@.len(),
                same <==> forall|q: int| 0 <= q < k ==> t@[i + q] == p@[q],
            decreases m - k,
        {
            if t.get_char(i + k) != p.get_char(k) {
                same = false;
            }
            k = k + 1;
        }
        if same {
            proof {
                assert(t@.subrange(i as int, i + m) =~= p@);
            }
            return true;
        }
        proof {
            let q = choose|q: int| 0 <= q < m && t@[i + q] != p@[q];
            assert(t@.subrange(i as int, i + m)[q] != p@[q]);
        }
        i = i + 1;
    }
    proof {
        assert forall|j: int| 0 <= j && j + p@.len() <= t@.len() implies #[trigger] t@.subrange(j, j + p@.len()) != p@ by {}
    }
    false
}

proof fn lemma_char_index(t: Seq<char>, c: char, i: int)
    requires
        0 <= i <= t.len(),
        forall|k: int| 0 <= k < i ==> t[k] != c,
        i == t.len() || t[i] == c,
    ensures
        char_index(t, c) == i,
    decreases t.len(),
{
    if i > 0 {
        assert forall|k: int| 0 <= k < i - 1 implies t.drop_first()[k] != c by {
            assert(t.drop_first()[k] == t[k + 1]);
        }
        lemma_char_index(t.drop_first(), c, i - 1);
    }
}

/// Position of the first `c` in `t` at or after `from`, or the length.
fn find_char(t: &str, from: usize, c: char) -> (r: usize)
    requires
        from <= t@.len(),
    ensures
        r == from + char_index(t@.skip(from as int), c),
        from <= r <= t@.len(),
{
    let n = t.unicode_len();
    let mut i = from;
    while i < n && t.get_char(i) != c
        invariant
            from <= i <= n,
            n == t@.len(),
            forall|k: int| from <= k < i ==> t@[k] != c,
        decreases n - i,
    {
        i = i + 1;
    }
    proof {
        let s = t@.skip(from as int);
        assert forall|k: int| 0 <= k < i - from implies s[k] != c by {
            assert(s[k] == t@[k + from]);
        }
        if i < n {
            assert(s[i - from] == t@[i as int]);
        }
        lemma_char_index(s, c, i - from);
    }
    i
}

/// `str::parse::<u64>` of `t[start..end]`.
pub fn parse_u64_chars(t: &str, start: usize, end: usize) -> (r: Option<u64>)
    requires
        start <= end <= t@.len(),
    ensures
        r == parse_u64_text(t@.subrange(start as int, end as int)),
{
    let ghost c = t@.subrange(start as int, end as int);
    let mut i = start;
    if start < end && t.get_char(start) == '+' {
        i = start + 1;
    }
    let ghost d = t@.subrange(i as int, end as int);
    proof {
        if start < end && c[0] == '+' {
            assert(c.drop_first() =~= d);
        } else {
            assert(c =~= d);
        }
    }
    if i == end {
        return None;
    }
    let mut k = i;
    while k < end
        invariant
            start <= i <= k <= end <= t@.len(),
            c == t@.subrange(start as int, end as int),
            d == t@.subrange(i as int, end as int),
            d == sign_stripped(c),
            forall|q: int| i <= q < k ==> is_digit_char(#[trigger] t@[q]),
        decreases end - k,
    {
        let ch = t.get_char(k);
        if !('0' <= ch && ch <= '9') {
            proof {
                assert(d[k - i] == t@[k as int]);
                assert(!is_digit_char(d[k - i]));
            }
            return None;
        }
        k = k + 1;
    }
    proof {
        assert forall|q: int| 0 <= q < d.len() implies is_digit_char(#[trigger] d[q]) by {
            assert(d[q] == t@[q + i]);
        }
    }
    let mut v: u64 = 0;
    k = i;
    while k < end
        invariant
            start <= i <= k <= end <= t@.len(),
            c == t@.subrange(start as int, end as int),
            d == t@.subrange(i as int, end as int),
            d == sign_stripped(c),
            forall|q: int| 0 <= q < d.len() ==> is_digit_char(#[trigger] d[q]),
            v == char_digits_value(t@.subrange(i as int, k as int)),
        decreases end - k,
    {
        let ch = t.get_char(k);
        let ghost pre = t@.subrange(i as int, k as int);
        let ghost next = t@.subrange(i as int, k + 1);
        proof {
            assert(next.drop_last() =~= pre);
            assert(d[k - i] == t@[k as int]);
            assert(is_digit_char(ch));
        }
        let dgt = (ch as u32 - '0' as u32) as u64;
        if v > (u64::MAX - dgt) / 10 {
            proof {
                assert(v * 10 + dgt > u64::MAX) by (nonlinear_arith)
                    requires
                        v > (u64::MAX - dgt) / 10,
                        dgt < 10,
                ;
                lemma_char_digits_mono(d, (k + 1 - i) as nat);
                assert(d.subrange(0, k + 1 - i) =~= next);
            }
            return None;
        }
        v = v * 10 + dgt;
        k = k + 1;
    }
    proof {
        assert(t@.subrange(i as int, k as int) =~= d);
    }
    Some(v)
}

proof fn lemma_char_digits_mono(s: Seq<char>, k: nat)
    requires
        k <= s.len(),
        forall|i: int| 0 <= i < s.len() ==> is_digit_char(#[trigger] s[i]),
    ensures
        char_digits_value(s) >= char_digits_value(s.subrange(0, k as int)),
    decreases s.len(),
{
    if k < s.len() {
        assert forall|i: int| 0 <= i < s.drop_last().len() implies is_digit_char(#[trigger] s.drop_last()[i]) by {
            assert(s.drop_last()[i] == s[i]);
        }
        lemma_char_digits_mono(s.drop_last(), k);
        assert(s.drop_last().subrange(0, k as int) =~= s.subrange(0, k as int));
        let a = char_digits_value(s.drop_last());
        assert(a * 10 >= a) by (nonlinear_arith)
            requires
                a >= 0,
        ;
    } else {
        assert(s.subrange(0, k as int) =~= s);
    }
}

impl TrustEnvelope {
    /// The canonical scannable URI: `ndn-trust://<kind>/<base64url(TLV)>`.
    pub fn to_uri(&self) -> (r: String)
        ensures
            r@ == envelope_uri(self@, b64url_encoding(envelope_wire(self@))),
            body_fits(self@) ==> uri_decoding(r@) == Ok::<EnvelopeModel, EnvelopeError>(self@),
    {
        let wire = self.encode();
        let enc = b64url_encode(wire.as_slice());
        let kind = self.kind().as_str();
        let mut out: Vec<u8> = Vec::new();
        let scheme = "ndn-trust://";
        proof {
            reveal_strlit("ndn-trust://");
            assert(scheme@ =~= scheme_text());
            assert(vstd::utf8::is_ascii_chars(scheme@));
            assert(vstd::utf8::is_ascii_chars(kind@));
            assert(vstd::utf8::is_ascii_chars(enc@)) by {
                assert forall|i: int| 0 <= i < enc@.len() implies '\0' <= #[trigger] enc@[i] <= '\u{7f}' by {
                    assert(is_b64url_char(enc@[i]));
                }
            }
            lemma_ascii_text(scheme@);
            lemma_ascii_text(kind@);
            lemma_ascii_text(enc@);
        }
        append_bytes(&mut out, scheme.as_bytes());
        append_bytes(&mut out, kind.as_bytes());
        out.push(0x2F);
        append_bytes(&mut out, enc.as_str().as_bytes());
        let ghost b1 = utf8_bytes(scheme@);
        let ghost b2 = utf8_bytes(kind@);
        let ghost b3 = utf8_bytes(enc@);
        proof {
            assert(out@ =~= b1 + b2 + seq![0x2Fu8] + b3);
            assert forall|i: int| 0 <= i < out@.len() implies out@[i] < 128 by {
                if i < b1.len() {
                    assert(out@[i] == b1[i]);
                } else if i < b1.len() + b2.len() {
                    assert(out@[i] == b2[i - b1.len()]);
                } else if i > b1.len() + b2.len() {
                    assert(out@[i] == b3[i - b1.len() - b2.len() - 1]);
                }
            }
            assert(ascii_chars(out@) =~= ascii_chars(b1) + ascii_chars(b2) + seq!['/'] + ascii_chars(b3));
            if body_fits(self@) {
                lemma_uri_roundtrip(self@, enc@);
            }
        }
        string_from_ascii(out.as_slice())
    }

    /// Parse any supported carriage: the `ndn-trust://` scheme, the
    /// `https://...#` universal-link mirror, or the legacy `ndn-ctx:1:`
    /// anchor form.
    pub fn from_uri(s: &str) -> (r: Result<TrustEnvelope, EnvelopeError>)
        ensures
            match uri_decoding(s@) {
                Ok(m) => r matches Ok(e) && e@ == m,
                Err(x) => r == Err::<TrustEnvelope, EnvelopeError>(x),
            },
    {
        let t = trim_text(s);
        let n = t.unicode_len();
        let legacy = "ndn-ctx:1:";
        let scheme = "ndn-trust://";
        let https = "https://";
        let http = "http://";
        let marker = "/t/";
        proof {
            reveal_strlit("ndn-ctx:1:");
            reveal_strlit("ndn-trust://");
            reveal_strlit("https://");
            reveal_strlit("http://");
            reveal_strlit("/t/");
            assert(legacy@ =~= legacy_tag());
            assert(scheme@ =~= scheme_text());
            assert(https@ =~= https_text());
            assert(http@ =~= http_text());
            assert(marker@ =~= mirror_marker());
        }
        if has_prefix(t, legacy) {
            let k = find_char(t, 10, ':');
            proof {
                assert(t@.skip(10).skip((k - 10) as int) =~= t@.skip(k as int));
            }
            if k >= n {
                return Err(EnvelopeError::MalformedUri);
            }
            let version = match parse_u64_chars(t, 10, k) {
                Some(v) => v,
                None => {
                    proof {
                        assert(t@.skip(10).take((k - 10) as int) =~= t@.subrange(10, k as int));
                    }
                    return Err(EnvelopeError::MalformedUri);
                },
            };
            proof {
                assert(t@.skip(10).take((k - 10) as int) =~= t@.subrange(10, k as int));
                assert(t@.skip(10).skip(k - 10 + 1) =~= t@.subrange(k + 1, n as int));
            }
            let b64 = trim_text(t.substring_char(k + 1, n));
            let content = match b64url_decode(b64.as_bytes()) {
                Some(c) => c,
                None => return Err(EnvelopeError::BadBase64),
            };
            return Ok(TrustEnvelope::Anchor { version, context_content: content });
        }
        let start: usize;
        if has_prefix(t, scheme) {
            let k = find_char(t, 12, '/');
            proof {
                assert(t@.skip(12).skip((k - 12) as int) =~= t@.skip(k as int));
            }
            if k >= n {
                return Err(EnvelopeError::MalformedUri);
            }
            proof {
                assert(t@.skip(12).skip(k - 12 + 1) =~= t@.subrange(k + 1, n as int));
            }
            start = k + 1;
        } else if (has_prefix(t, https) || has_prefix(t, http)) && contains_str(t, marker) {
            let k = find_char(t, 0, '#');
            proof {
                assert(t@.skip(0) =~= t@);
            }
            if k >= n {
                return Err(EnvelopeError::MalformedUri);
            }
            proof {
                assert(t@.skip(k + 1) =~= t@.subrange(k + 1, n as int));
            }
            start = k + 1;
        } else {
            return Err(EnvelopeError::UnknownScheme);
        }
        let b64 = trim_text(t.substring_char(start, n));
        let wire = match b64url_decode(b64.as_bytes()) {
            Some(w) => w,
            None => return Err(EnvelopeError::BadBase64),
        };
        TrustEnvelope::decode(wire.as_slice())
    }
}

proof fn lemma_no_ws_trimmed(c: Seq<char>)
    requires
        forall|i: int| 0 <= i < c.len() ==> !is_white_space(#[trigger] c[i]),
    ensures
        trimmed(c) == c,
{
    if c.len() > 0 {
        assert(!is_white_space(c[0]));
        assert(!is_white_space(c.last()));
    }
    assert(c.skip(0) =~= c);
    assert(c.take(c.len() as int) =~= c);
}

/// Parsing the URI of an envelope (as `to_uri` writes it, with base64url text
/// that decodes to the container) gives the envelope back.
#[verifier::rlimit(60)]
pub proof fn lemma_uri_roundtrip(m: EnvelopeModel, b64: Seq<char>)
    requires
        body_fits(m),
        forall|i: int| 0 <= i < b64.len() ==> is_b64url_char(#[trigger] b64[i]),
        b64url_decoding(utf8_bytes(b64)) == Some(envelope_wire(m)),
    ensures
        uri_decoding(envelope_uri(m, b64)) == Ok::<EnvelopeModel, EnvelopeError>(m),
{
    let u = envelope_uri(m, b64);
    let k = kind_text(model_kind(m));
    assert forall|i: int| 0 <= i < u.len() implies !is_white_space(#[trigger] u[i]) by {
        if i >= 13 + k.len() {
            assert(u[i] == b64[i - 13 - k.len()]);
            assert(is_b64url_char(b64[i - 13 - k.len()]));
        }
    }
    lemma_no_ws_trimmed(u);
    assert(u[4] == 't');
    assert(!starts_with(u, legacy_tag())) by {
        if starts_with(u, legacy_tag()) {
            assert(u.take(10)[4] == legacy_tag()[4]);
        }
    }
    assert(u.take(12) =~= scheme_text());
    let rest = u.skip(12);
    assert(rest =~= k + seq!['/'] + b64);
    assert forall|i: int| 0 <= i < k.len() implies rest[i] != '/' by {
        assert(rest[i] == k[i]);
    }
    lemma_char_index(rest, '/', k.len() as int);
    assert(rest.skip(k.len() as int + 1) =~= b64);
    assert forall|i: int| 0 <= i < b64.len() implies !is_white_space(#[trigger] b64[i]) by {
        assert(is_b64url_char(b64[i]));
    }
    lemma_no_ws_trimmed(b64);
    lemma_envelope_roundtrip(m);
}

/// The universal-link mirror of a payload: `https://` (or `http://`), the
/// host, `/t/`, the kind, `#`, then the payload text.
pub open spec fn mirror_uri(secure: bool, host: Seq<char>, kind: Seq<char>, payload: Seq<char>) -> Seq<char> {
    (if secure {
        https_text()
    } else {
        http_text()
    }) + host + seq!['/', 't', '/'] + kind + seq!['#'] + payload
}

/// A piece of URI text with no `#` and no white space.
pub open spec fn plain_uri_text(t: Seq<char>) -> bool {
    forall|i: int| 0 <= i < t.len() ==> #[trigger] t[i] != '#' && !is_white_space(t[i])
}

/// A mirror link carries its payload after the `#`, untrimmed by anything
/// before it.
proof fn lemma_mirror_payload(secure: bool, host: Seq<char>, kind: Seq<char>, b: Seq<char>)
    requires
        plain_uri_text(host),
        plain_uri_text(kind),
        forall|i: int| 0 <= i < b.len() ==> is_b64url_char(#[trigger] b[i]),
    ensures
        trimmed(mirror_uri(secure, host, kind, b)) == mirror_uri(secure, host, kind, b),
        !starts_with(mirror_uri(secure, host, kind, b), legacy_tag()),
        uri_payload(mirror_uri(secure, host, kind, b)) == Ok::<Seq<char>, EnvelopeError>(b),
        trimmed(b) == b,
{
    let t = mirror_uri(secure, host, kind, b);
    let sch = if secure {
        https_text()
    } else {
        http_text()
    };
    let pre = sch + host + seq!['/', 't', '/'] + kind;
    assert(t =~= pre + seq!['#'] + b);
    let hs: int = (sch.len() + host.len()) as int;
    assert forall|i: int| 0 <= i < pre.len() implies pre[i] != '#' && !is_white_space(pre[i]) by {
        if i < sch.len() {
            assert(pre[i] == sch[i]);
        } else if i < hs {
            assert(pre[i] == host[i - sch.len()]);
        } else if i < hs + 3 {
            assert(pre[i] == seq!['/', 't', '/'][i - hs]);
        } else {
            assert(pre[i] == kind[i - hs - 3]);
        }
    }
    assert forall|i: int| 0 <= i < b.len() implies b[i] != '#' && !is_white_space(b[i]) by {
        assert(is_b64url_char(b[i]));
    }
    assert forall|i: int| 0 <= i < t.len() implies !is_white_space(#[trigger] t[i]) by {
        if i < pre.len() {
            assert(t[i] == pre[i]);
        } else if i > pre.len() {
            assert(t[i] == b[i - pre.len() - 1]);
        }
    }
    lemma_no_ws_trimmed(t);
    lemma_no_ws_trimmed(b);
    assert(t[0] == 'h');
    assert(!starts_with(t, legacy_tag())) by {
        if starts_with(t, legacy_tag()) {
            assert(t.take(10)[0] == legacy_tag()[0]);
        }
    }
    assert(!starts_with(t, scheme_text())) by {
        if starts_with(t, scheme_text()) {
            assert(t.take(12)[0] == scheme_text()[0]);
        }
    }
    if secure {
        assert(t.take(8) =~= https_text());
    } else {
        assert(t.take(7) =~= http_text());
    }
    assert(t.subrange(hs, hs + 3) =~= mirror_marker());
    assert(contains_text(t, mirror_marker()));
    assert forall|k: int| 0 <= k < pre.len() implies t[k] != '#' by {
        assert(t[k] == pre[k]);
    }
    lemma_char_index(t, '#', pre.len() as int);
    assert(t.skip(pre.len() as int + 1) =~= b);
}

/// The canonical scheme form carries the text after the kind's `/`.
proof fn lemma_scheme_payload(kind: Seq<char>, b: Seq<char>)
    requires
        plain_uri_text(kind),
        forall|i: int| 0 <= i < kind.len() ==> #[trigger] kind[i] != '/',
        forall|i: int| 0 <= i < b.len() ==> is_b64url_char(#[trigger] b[i]),
    ensures
        trimmed(scheme_text() + kind + seq!['/'] + b) == scheme_text() + kind + seq!['/'] + b,
        !starts_with(scheme_text() + kind + seq!['/'] + b, legacy_tag()),
        uri_payload(scheme_text() + kind + seq!['/'] + b) == Ok::<Seq<char>, EnvelopeError>(b),
{
    let u = scheme_text() + kind + seq!['/'] + b;
    assert forall|i: int| 0 <= i < u.len() implies !is_white_space(#[trigger] u[i]) by {
        if 12 <= i < 12 + kind.len() {
            assert(u[i] == kind[i - 12]);
        } else if i > 12 + kind.len() {
            assert(u[i] == b[i - 13 - kind.len()]);
            assert(is_b64url_char(b[i - 13 - kind.len()]));
        }
    }
    lemma_no_ws_trimmed(u);
    assert(u[4] == 't');
    assert(!starts_with(u, legacy_tag())) by {
        if starts_with(u, legacy_tag()) {
            assert(u.take(10)[4] == legacy_tag()[4]);
        }
    }
    assert(u.take(12) =~= scheme_text());
    let rest = u.skip(12);
    assert(rest =~= kind + seq!['/'] + b);
    assert forall|i: int| 0 <= i < kind.len() implies rest[i] != '/' by {
        assert(rest[i] == kind[i]);
    }
    lemma_char_index(rest, '/', kind.len() as int);
    assert(rest.skip(kind.len() as int + 1) =~= b);
}

/// The universal-link mirror `https://<host>/t/<kind>#<b>` (or its
/// `http://` form) parses exactly as the canonical
/// `ndn-trust://<kind>/<b>` does, for every base64url payload `b`.
pub proof fn lemma_mirror_agrees_with_scheme(secure: bool, host: Seq<char>, kind: Seq<char>, b: Seq<char>)
    requires
        plain_uri_text(host),
        plain_uri_text(kind),
        forall|i: int| 0 <= i < kind.len() ==> #[trigger] kind[i] != '/',
        forall|i: int| 0 <= i < b.len() ==> is_b64url_char(#[trigger] b[i]),
    ensures
        uri_decoding(mirror_uri(secure, host, kind, b)) == uri_decoding(scheme_text() + kind + seq!['/'] + b),
{
    lemma_mirror_payload(secure, host, kind, b);
    lemma_scheme_payload(kind, b);
}

/// Every envelope whose base64url container text is `b` is read back from
/// its universal-link mirror, whatever the host and the kind written in
/// the link.
pub proof fn lemma_mirror_uri_roundtrip(m: EnvelopeModel, secure: bool, host: Seq<char>, kind: Seq<char>, b: Seq<char>)
    requires
        body_fits(m),
        plain_uri_text(host),
        plain_uri_text(kind),
        forall|i: int| 0 <= i < b.len() ==> is_b64url_char(#[trigger] b[i]),
        b64url_decoding(utf8_bytes(b)) == Some(envelope_wire(m)),
    ensures
        uri_decoding(mirror_uri(secure, host, kind, b)) == Ok::<EnvelopeModel, EnvelopeError>(m),
        uri_decoding(mirror_uri(secure, host, kind, b)) == uri_decoding(envelope_uri(m, b)),
{
    lemma_mirror_payload(secure, host, kind, b);
    lemma_envelope_roundtrip(m);
    lemma_uri_roundtrip(m, b);
}

/// An `https://` or `http://` link is read only as the universal-link
/// mirror: without the `/t/` marker its scheme is unknown, and with the
/// marker but no `#` fragment it is malformed.
pub proof fn lemma_web_link_forms(t: Seq<char>)
    requires
        forall|i: int| 0 <= i < t.len() ==> !is_white_space(#[trigger] t[i]),
        starts_with(t, https_text()) || starts_with(t, http_text()),
    ensures
        !contains_text(t, mirror_marker()) ==> uri_decoding(t) == Err::<EnvelopeModel, EnvelopeError>(
            EnvelopeError::UnknownScheme,
        ),
        contains_text(t, mirror_marker()) && (forall|i: int| 0 <= i < t.len() ==> #[trigger] t[i] != '#')
            ==> uri_decoding(t) == Err::<EnvelopeModel, EnvelopeError>(EnvelopeError::MalformedUri),
{
    lemma_no_ws_trimmed(t);
    if starts_with(t, https_text()) {
        assert(t.take(8)[0] == 'h');
    } else {
        assert(t.take(7)[0] == 'h');
    }
    assert(t[0] == 'h');
    assert(!starts_with(t, legacy_tag())) by {
        if starts_with(t, legacy_tag()) {
            assert(t.take(10)[0] == legacy_tag()[0]);
        }
    }
    assert(!starts_with(t, scheme_text())) by {
        if starts_with(t, scheme_text()) {
            assert(t.take(12)[0] == scheme_text()[0]);
        }
    }
    if forall|i: int| 0 <= i < t.len() ==> #[trigger] t[i] != '#' {
        lemma_char_index(t, '#', t.len() as int);
    }
}

} // verus!
