//! Verified core of an NDN security stack: the NDN-TLV codec, names and
//! name patterns, certificate validity timestamps, trust envelopes, and the
//! decision logic of certificate issuance, delegation and key transitions.

pub mod tlv;
pub mod name;

pub mod text;
pub mod name_uri;
pub mod iso8601;
pub mod spki;
pub mod b64;
pub mod digest;
pub mod envelope;
pub mod abe;
pub mod attestation;
pub mod ndncert;
pub mod clock;
pub mod crypto;
pub mod challenge;
pub mod email;
pub mod ca;
pub mod signer;
pub mod transition;
pub mod trust_schema;
pub mod delegation;
pub mod confidentiality;
pub mod validation;
pub mod pib;
pub mod acme;
pub mod lvs_compile;
pub mod capability;
pub mod framing;
pub mod revocation;
pub mod signed_delegation;
pub mod device;
pub mod renewal;
pub mod context_sync;
pub mod custodian;
pub mod safebag;
pub mod chain;
pub mod trace;
pub mod trust_context;
