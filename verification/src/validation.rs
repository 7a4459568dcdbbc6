//! Unverified packets and the trust choices a node starts with.
//!
//! A packet that has not been validated is wrapped in [`Unverified`]; its
//! contents can be looked at but not used as trusted without either a
//! validation verdict or an explicit, visible bypass.

use vstd::prelude::*;

use crate::lvs_compile::LvsGraph;
use crate::signer::Ed25519Signer;
use crate::trust_schema::{PatView, TrustSchema};

verus! {

/// A value that has not been validated yet.
#[derive(Debug)]
pub struct Unverified<T> {
    inner: T,
}

/// Why validating a packet did not make it trusted.
#[derive(Debug, Clone, PartialEq, Eq)]
pub enum VerifyError {
    /// Verification failed, with the validator's reason.
    Invalid(String),
    /// The certificate chain is not resolved yet.
    Pending,
    /// Only a `DigestSha256` covers the packet: integrity, not identity.
    UnauthenticatedDigest,
}

/// What a validator said of a packet.
#[derive(Debug, Clone, PartialEq, Eq)]
pub enum ValidationResult<S> {
    /// Valid; `digest_only` when the trust path is a bare `DigestSha256`.
    Valid { data: S, digest_only: bool },
    Invalid(String),
    Pending,
}

impl<T> Unverified<T> {
    pub closed spec fn inner_view(&self) -> T {
        self.inner
    }

    pub fn new(inner: T) -> (r: Unverified<T>)
        ensures
            r.inner_view() == inner,
    {
        Unverified { inner }
    }

    /// Look at the contents without trusting them.
    pub fn peek(&self) -> (r: &T)
        ensures
            *r == self.inner_view(),
    {
        &self.inner
    }

    /// Take the contents without validation: the explicit, visible bypass.
    pub fn trust_unchecked(self) -> (r: T)
        ensures
            r == self.inner_view(),
    {
        self.inner
    }

    /// What validation of the contents yields once the validator has
    /// answered. A packet covered by a bare digest is turned away unless
    /// `allow_digest` is set.
    pub fn settle<S>(result: ValidationResult<S>, allow_digest: bool) -> (r: Result<S, VerifyError>)
        ensures
            match result {
                ValidationResult::Valid { data, digest_only } => if digest_only && !allow_digest {
                    r == Err::<S, VerifyError>(VerifyError::UnauthenticatedDigest)
                } else {
                    r == Ok::<S, VerifyError>(data)
                },
                ValidationResult::Invalid(e) => r == Err::<S, VerifyError>(VerifyError::Invalid(e)),
                ValidationResult::Pending => r == Err::<S, VerifyError>(VerifyError::Pending),
            },
    {
        match result {
            ValidationResult::Valid { data, digest_only } => {
                if digest_only && !allow_digest {
                    Err(VerifyError::UnauthenticatedDigest)
                } else {
                    Ok(data)
                }
            },
            ValidationResult::Invalid(e) => Err(VerifyError::Invalid(e)),
            ValidationResult::Pending => Err(VerifyError::Pending),
        }
    }
}

/// How a node validates what it receives.
#[derive(Debug, Clone, PartialEq, Eq)]
pub enum SecurityProfile {
    /// Validate against the node's trust anchors and schema.
    Default,
    /// Accept any packet with a valid signature, whatever the names.
    AcceptSigned,
    /// No validation.
    Disabled,
    /// Validate with this schema.
    Custom(TrustSchema),
}

/// Sign nothing and accept every signed packet. For tests and closed
/// networks only.
#[derive(Debug, Clone, Copy, PartialEq, Eq, Default)]
pub struct InsecureTrust;

impl InsecureTrust {
    /// The schema it validates with: accept all.
    pub fn validator(&self) -> (r: TrustSchema)
        ensures
            r.rules@.len() == 1,
            r.rules@[0].data_pattern@ == seq![PatView::MultiCapture("_"@)],
            r.rules@[0].key_pattern@ == seq![PatView::MultiCapture("_"@)],
    {
        TrustSchema::accept_all()
    }
}

/// A fixed signer, validating with the hierarchical schema.
pub struct StaticTrust {
    pub signer: Option<Ed25519Signer>,
}

impl StaticTrust {
    pub fn new(signer: Option<Ed25519Signer>) -> (r: StaticTrust)
        ensures
            r.signer == signer,
    {
        StaticTrust { signer }
    }

    /// The signer for any name: the fixed one.
    pub fn signer(&self) -> (r: Option<&Ed25519Signer>)
        ensures
            match self.signer {
                Some(s) => r == Some(&s),
                None => r is None,
            },
    {
        match &self.signer {
            Some(s) => Some(s),
            None => None,
        }
    }

    /// The schema it validates with: data and key share their first
    /// component.
    pub fn validator(&self) -> (r: TrustSchema)
        ensures
            r.rules@.len() == 1,
            r.rules@[0].data_pattern@ == seq![PatView::Capture("org"@), PatView::MultiCapture("_data"@)],
            r.rules@[0].key_pattern@ == seq![PatView::Capture("org"@), PatView::MultiCapture("_key"@)],
    {
        TrustSchema::hierarchical()
    }
}

/// A signer under an LVS trust model, validating with the hierarchical
/// schema.
pub struct LvsTrust {
    pub model: LvsGraph,
    pub signer: Option<Ed25519Signer>,
}

impl LvsTrust {
    pub fn new(model: LvsGraph, signer: Option<Ed25519Signer>) -> (r: LvsTrust)
        ensures
            r.model == model,
            r.signer == signer,
    {
        LvsTrust { model, signer }
    }

    pub fn model(&self) -> (r: &LvsGraph)
        ensures
            *r == self.model,
    {
        &self.model
    }

    /// The signer for any name: the fixed one.
    pub fn signer(&self) -> (r: Option<&Ed25519Signer>)
        ensures
            match self.signer {
                Some(s) => r == Some(&s),
                None => r is None,
            },
    {
        match &self.signer {
            Some(s) => Some(s),
            None => None,
        }
    }

    /// The schema it validates with: data and key share their first
    /// component.
    pub fn validator(&self) -> (r: TrustSchema)
        ensures
            r.rules@.len() == 1,
            r.rules@[0].data_pattern@ == seq![PatView::Capture("org"@), PatView::MultiCapture("_data"@)],
            r.rules@[0].key_pattern@ == seq![PatView::Capture("org"@), PatView::MultiCapture("_key"@)],
    {
        TrustSchema::hierarchical()
    }
}

} // verus!
