//! The wall clock. Nothing is promised of what it reads.

use vstd::prelude::*;

verus! {

/// Seconds since the UNIX epoch (`SystemTime::now`), or 0 before it.
#[verifier::external_body]
pub fn now_secs() -> u64 {
    std::time::SystemTime::now().duration_since(std::time::UNIX_EPOCH).map(|d| d.as_secs()).unwrap_or(0)
}

/// Milliseconds since the UNIX epoch (`SystemTime::now`), or 0 before it.
#[verifier::external_body]
pub fn now_ms() -> u64 {
    std::time::SystemTime::now().duration_since(std::time::UNIX_EPOCH).map(|d| d.as_millis() as u64).unwrap_or(0)
}

/// Nanoseconds since the UNIX epoch (`SystemTime::now`), or 0 before it.
#[verifier::external_body]
pub fn now_ns() -> u64 {
    std::time::SystemTime::now().duration_since(std::time::UNIX_EPOCH).map(|d| d.as_nanos() as u64).unwrap_or(0)
}

} // verus!
