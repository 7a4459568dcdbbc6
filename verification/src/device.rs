//! Zero-touch device provisioning over NDNCERT: what a device derives from
//! its configuration before it talks to the CA (the CA prefix, its key
//! name, the challenge it answers) and how its certificate is renewed
//! afterwards.
//!
//! Connecting to the router, generating and storing the key, and running
//! the enrollment exchange are the caller's work; the decisions are here.

use vstd::prelude::*;

use crate::challenge::{JsonFields, JsonScalar, ScalarView};
use crate::crypto::ed25519_signature;
use crate::name::{nonneg_bytes, nonneg_component, ComponentView, Name, GENERIC_COMPONENT, VERSION_COMPONENT};
use crate::text::{string_from_static, utf8_bytes};

verus! {

/// The credential a device is provisioned with at the factory.
#[derive(Debug, Clone, PartialEq, Eq)]
pub enum FactoryCredential {
    /// One-time enrollment token (most common for fleet devices).
    Token(String),
    /// `did:key` embedded in firmware (possession-style enrollment).
    DidKey(String),
    /// Pre-existing certificate name and key seed (renewal-style
    /// enrollment).
    Existing { cert_name: String, key_seed: [u8; 32] },
}

/// When a device renews its certificate.
#[derive(Debug, Clone, Copy, PartialEq, Eq)]
pub enum RenewalPolicy {
    /// When less than this percentage of the validity period remains.
    WhenPercentRemaining(u8),
    /// On a fixed period, in milliseconds.
    Every(u64),
    /// Never automatically.
    Manual,
}

impl Default for RenewalPolicy {
    fn default() -> (r: RenewalPolicy)
        ensures
            r == RenewalPolicy::WhenPercentRemaining(20),
    {
        RenewalPolicy::WhenPercentRemaining(20)
    }
}

/// The parameters answered in the NDNCERT challenge.
#[derive(Debug, Clone, PartialEq, Eq)]
pub enum ChallengeParams {
    Token { token: String },
    Possession { cert_name: String, signature: Vec<u8> },
    Raw(JsonFields),
}

/// A device's provisioning configuration.
#[derive(Debug, Clone, PartialEq, Eq)]
pub struct DeviceConfig {
    pub namespace: Name,
    /// Where keys are stored; `None` keeps them in memory only.
    pub storage: Option<String>,
    pub factory_credential: FactoryCredential,
    /// `None` derives `<namespace minus its last component>/CA`.
    pub ca_prefix: Option<Name>,
    pub renewal: RenewalPolicy,
    /// Sub-namespaces to delegate after enrollment.
    pub delegate: Vec<Name>,
}

/// The bytes `C`, `A`.
pub open spec fn ca_text() -> Seq<u8> {
    seq![0x43u8, 0x41u8]
}

/// The bytes `K`, `E`, `Y`.
pub open spec fn key_text() -> Seq<u8> {
    seq![0x4Bu8, 0x45u8, 0x59u8]
}

/// The CA prefix a device derives from its namespace: the parent
/// namespace followed by `CA`, or the namespace itself followed by `CA`
/// when it has a single component (or none).
pub open spec fn derived_ca_prefix(namespace: Seq<ComponentView>) -> Seq<ComponentView> {
    if namespace.len() > 1 {
        namespace.drop_last().push((GENERIC_COMPONENT, ca_text()))
    } else {
        namespace.push((GENERIC_COMPONENT, ca_text()))
    }
}

/// The version component for `v`.
pub open spec fn version_component(v: u64) -> ComponentView {
    (VERSION_COMPONENT, nonneg_bytes(v))
}

/// The key name a device generates: `<namespace>/KEY/<version>`.
pub open spec fn device_key_name(namespace: Seq<ComponentView>, version: u64) -> Seq<ComponentView> {
    namespace.push((GENERIC_COMPONENT, key_text())).push(version_component(version))
}

/// The CA prefix derived from a namespace.
pub fn derive_ca_prefix(namespace: &Name) -> (r: Name)
    ensures
        r@ == derived_ca_prefix(namespace@),
{
    let n = namespace.len();
    if n > 1 {
        namespace.prefix(n - 1).append(&[0x43u8, 0x41u8])
    } else {
        namespace.copy().append(&[0x43u8, 0x41u8])
    }
}

/// The key name a device generates at time `version_ms`.
pub fn device_key(namespace: &Name, version_ms: u64) -> (r: Name)
    ensures
        r@ == device_key_name(namespace@, version_ms),
{
    namespace.copy().append(&[0x4Bu8, 0x45u8, 0x59u8]).append_component(nonneg_component(VERSION_COMPONENT, version_ms))
}

/// The challenge parameters for a factory credential: a token is answered
/// as a token; a `did:key` as a raw `did_key` parameter; an existing key as
/// a possession proof, its Ed25519 signature over the certificate name.
pub fn build_challenge(credential: &FactoryCredential, key_name: &Name) -> (r: ChallengeParams)
    ensures
        match *credential {
            FactoryCredential::Token(t) => r matches ChallengeParams::Token { token } && token@ == t@,
            FactoryCredential::DidKey(d) => r matches ChallengeParams::Raw(f) && f@ == seq![
                ("did_key"@, ScalarView::Str(d@)),
            ],
            FactoryCredential::Existing { cert_name, key_seed } => r matches ChallengeParams::Possession {
                cert_name: c,
                signature,
            } && c@ == cert_name@ && signature@ == ed25519_signature(key_seed@, utf8_bytes(cert_name@)),
        },
{
    match credential {
        FactoryCredential::Token(token) => ChallengeParams::Token { token: token.clone() },
        FactoryCredential::DidKey(did) => {
            let mut entries: Vec<(String, JsonScalar)> = Vec::new();
            entries.push((string_from_static("did_key"), JsonScalar::Str(did.clone())));
            let f = JsonFields { entries };
            proof {
                assert(f@ =~= seq![("did_key"@, ScalarView::Str(did@))]);
            }
            ChallengeParams::Raw(f)
        },
        FactoryCredential::Existing { cert_name, key_seed } => {
            let signature = crate::crypto::ed25519_sign(key_seed, cert_name.as_str().as_bytes());
            ChallengeParams::Possession { cert_name: cert_name.clone(), signature }
        },
    }
}

/// What a device does to provision itself.
#[derive(Debug, Clone, PartialEq, Eq)]
pub struct ProvisioningPlan {
    /// The CA to enroll with.
    pub ca_prefix: Name,
    /// The key to generate and certify.
    pub key_name: Name,
    /// The challenge answered at enrollment (and again at each renewal).
    pub challenge: ChallengeParams,
    /// How long to ask the certificate to be valid, in seconds.
    pub validity_secs: u64,
    /// The renewal policy to run afterwards; `None` for manual renewal.
    pub renewal: Option<RenewalPolicy>,
}

/// Requested certificate validity, in seconds (one day).
pub const ENROLL_VALIDITY_SECS: u64 = 86400;

/// The plan for a device provisioned at time `now_ms`: the configured CA
/// prefix or the derived one, the key `<namespace>/KEY/<now_ms>`, the
/// challenge for the factory credential, and the renewal policy unless it
/// is manual.
pub fn plan_provisioning(config: &DeviceConfig, now_ms: u64) -> (r: ProvisioningPlan)
    ensures
        r.ca_prefix@ == match config.ca_prefix {
            Some(p) => p@,
            None => derived_ca_prefix(config.namespace@),
        },
        r.key_name@ == device_key_name(config.namespace@, now_ms),
        r.validity_secs == ENROLL_VALIDITY_SECS,
        r.renewal == match config.renewal {
            RenewalPolicy::Manual => None,
            p => Some(p),
        },
        match config.factory_credential {
            FactoryCredential::Token(t) => r.challenge matches ChallengeParams::Token { token } && token@ == t@,
            FactoryCredential::DidKey(d) => r.challenge matches ChallengeParams::Raw(f) && f@ == seq![
                ("did_key"@, ScalarView::Str(d@)),
            ],
            FactoryCredential::Existing { cert_name, key_seed } => r.challenge matches ChallengeParams::Possession {
                cert_name: c,
                signature,
            } && c@ == cert_name@ && signature@ == ed25519_signature(key_seed@, utf8_bytes(cert_name@)),
        },
{
    let ca_prefix = match &config.ca_prefix {
        Some(p) => p.copy(),
        None => derive_ca_prefix(&config.namespace),
    };
    let key_name = device_key(&config.namespace, now_ms);
    let challenge = build_challenge(&config.factory_credential, &key_name);
    let renewal = match config.renewal {
        RenewalPolicy::Manual => None,
        p => Some(p),
    };
    ProvisioningPlan { ca_prefix, key_name, challenge, validity_secs: ENROLL_VALIDITY_SECS, renewal }
}

} // verus!
