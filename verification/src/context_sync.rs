//! Context sync: a trust context republished into a sync group reaches the
//! group's nodes, each of which adopts the newest version it sees.
//!
//! Fetching the bundle, decoding it and offering it to the keyring (which
//! refuses versions that are not newer than the one it holds) are the
//! caller's work; which name to fetch and what the outcome is are decided
//! here.

use vstd::prelude::*;

use crate::name::{nonneg_bytes, nonneg_component, ComponentView, Name, SEGMENT_COMPONENT};

verus! {

/// Outer container of a sync bundle on the wire.
pub const TC_SYNC_BUNDLE: u64 = 0x0420;

/// Anchor add/remove delta (additive).
pub const TC_SYNC_ANCHOR_DELTA: u64 = 0x0422;

/// Schema delta carrying a versioned rule update (critical).
pub const TC_SYNC_SCHEMA_DELTA: u64 = 0x0423;

/// CA endpoint additions and removals (additive).
pub const TC_SYNC_CA_ENDPOINT_DELTA: u64 = 0x0424;

/// A private key wrapped to a recipient device certificate (critical).
pub const TC_SYNC_WRAPPED_KEY_FOR_DEVICE: u64 = 0x0425;

/// The device producing the bundle (additive).
pub const TC_SYNC_DEVICE_ID: u64 = 0x0426;

/// Monotonic schema version inside a schema delta (critical).
pub const TC_SYNC_SCHEMA_VERSION: u64 = 0x0427;

/// What happened when a sync update was processed.
#[derive(Debug, Clone, Copy, PartialEq, Eq)]
pub enum ContextSyncOutcome {
    /// A newer context version was fetched, reconstructed and adopted.
    Adopted { version: u64 },
    /// Fetched and decoded, but the keyring refused it: the version it
    /// holds is the same or newer.
    Rejected { version: u64 },
    /// The bundle could not be fetched.
    FetchFailed,
    /// The fetched content was not a decodable bundle.
    DecodeFailed,
}

/// The name a bundle of `version` is published at: the publisher's group
/// name followed by the version as a segment number.
pub open spec fn bundle_name(group: Seq<ComponentView>, version: u64) -> Seq<ComponentView> {
    group.push((SEGMENT_COMPONENT, nonneg_bytes(version)))
}

/// The outcome of processing an update of `version`, given whether the
/// bundle was fetched, whether it decoded, and whether the keyring adopted
/// it.
pub open spec fn sync_outcome(version: u64, fetched: bool, decoded: bool, adopted: bool) -> ContextSyncOutcome {
    if !fetched {
        ContextSyncOutcome::FetchFailed
    } else if !decoded {
        ContextSyncOutcome::DecodeFailed
    } else if adopted {
        ContextSyncOutcome::Adopted { version }
    } else {
        ContextSyncOutcome::Rejected { version }
    }
}

/// Only the highest sequence number of an update is fetched: a context
/// fully supersedes its predecessors, and the sequence number is the
/// context version.
pub fn bundle_fetch_name(group: &Name, high_seq: u64) -> (r: Name)
    ensures
        r@ == bundle_name(group@, high_seq),
{
    group.copy().append_component(nonneg_component(SEGMENT_COMPONENT, high_seq))
}

/// The outcome of one update.
pub fn outcome_of(version: u64, fetched: bool, decoded: bool, adopted: bool) -> (r: ContextSyncOutcome)
    ensures
        r == sync_outcome(version, fetched, decoded, adopted),
{
    if !fetched {
        ContextSyncOutcome::FetchFailed
    } else if !decoded {
        ContextSyncOutcome::DecodeFailed
    } else if adopted {
        ContextSyncOutcome::Adopted { version }
    } else {
        ContextSyncOutcome::Rejected { version }
    }
}

} // verus!
