//! Background certificate renewal: when an identity's certificate nears
//! the end of its validity, a renewer obtains a fresh one; failures back off
//! exponentially, with jitter so that a fleet does not retry in lockstep.
//!
//! The task that sleeps, reads the clock and calls the renewer is the
//! caller's; each of its decisions is a method of [`RenewalLoop`].

use vstd::prelude::*;

use crate::device::RenewalPolicy;
use crate::name::Name;
use crate::signed_delegation::IdentityError;

verus! {

/// Why an automatic renewal attempt failed (the task retries after a
/// backoff).
#[derive(Debug, Clone, PartialEq, Eq)]
pub enum RenewalError {
    /// Connecting to the router or the CA failed.
    Connect(String),
    /// No signer is available for the key.
    NoSigner(Box<Name>),
    /// The NDNCERT enrollment failed.
    Enrollment(Box<IdentityError>),
    Other(String),
}

/// How often a percentage policy checks the certificate, in milliseconds.
pub const PERCENT_CHECK_INTERVAL_MS: u64 = 600_000;

/// The longest backoff, in nanoseconds (one hour).
pub const BACKOFF_CAP_NS: u64 = 3_600_000_000_000;

/// The renewal threshold when the policy names none.
pub const DEFAULT_THRESHOLD_PCT: u64 = 20;

/// How often the policy checks, in milliseconds; `None` for manual
/// renewal.
pub open spec fn interval_of(p: RenewalPolicy) -> Option<u64> {
    match p {
        RenewalPolicy::WhenPercentRemaining(_) => Some(PERCENT_CHECK_INTERVAL_MS),
        RenewalPolicy::Every(ms) => Some(ms),
        RenewalPolicy::Manual => None,
    }
}

/// The percentage of validity below which the certificate is renewed.
pub open spec fn threshold_of(p: RenewalPolicy) -> u64 {
    match p {
        RenewalPolicy::WhenPercentRemaining(pct) => pct as u64,
        _ => DEFAULT_THRESHOLD_PCT,
    }
}

/// Whether a certificate valid from `from` until `until` (nanoseconds)
/// needs renewal at `now`: less than `pct` percent of its validity
/// remains. A certificate with an empty validity period never does.
pub open spec fn needs_renewal_at(from: u64, until: u64, now: u64, pct: u64) -> bool {
    let total: int = if until > from { until - from } else { 0 };
    let remaining: int = if until > now { until - now } else { 0 };
    total != 0 && (remaining * 100) / total < pct
}

/// The backoff after `failures` consecutive failures, in nanoseconds: the
/// check interval doubled once per failure (at most six times), capped at
/// an hour; then half of that plus a jitter below the other half, taken
/// from `subsec_nanos` of the clock.
pub open spec fn backoff_ns(base_ms: u64, failures: u32, subsec_nanos: u32) -> int {
    let k: nat = if failures < 6 {
        failures as nat
    } else {
        6
    };
    let exp: int = base_ms * 1_000_000 * vstd::arithmetic::power2::pow2(k);
    let capped: int = if exp < BACKOFF_CAP_NS {
        exp
    } else {
        BACKOFF_CAP_NS as int
    };
    let half: int = capped / 2;
    let jitter: int = if half == 0 {
        0
    } else {
        subsec_nanos as int % half
    };
    capped - half + jitter
}

/// Check interval of a policy, in milliseconds.
pub fn check_interval_ms(policy: RenewalPolicy) -> (r: Option<u64>)
    ensures
        r == interval_of(policy),
{
    match policy {
        RenewalPolicy::WhenPercentRemaining(_) => Some(PERCENT_CHECK_INTERVAL_MS),
        RenewalPolicy::Every(ms) => Some(ms),
        RenewalPolicy::Manual => None,
    }
}

/// Renewal threshold of a policy, in percent.
pub fn threshold_pct(policy: RenewalPolicy) -> (r: u64)
    ensures
        r == threshold_of(policy),
{
    match policy {
        RenewalPolicy::WhenPercentRemaining(pct) => pct as u64,
        _ => DEFAULT_THRESHOLD_PCT,
    }
}

/// Whether the certificate needs renewal at `now_ns`.
pub fn renewal_needed(valid_from: u64, valid_until: u64, now_ns: u64, pct: u64) -> (r: bool)
    ensures
        r == needs_renewal_at(valid_from, valid_until, now_ns, pct),
{
    let total = valid_until.saturating_sub(valid_from);
    let remaining = valid_until.saturating_sub(now_ns);
    if total == 0 {
        return false;
    }
    let scaled: u128 = remaining as u128 * 100;
    (scaled / total as u128) < pct as u128
}

/// The backoff before the next attempt, in nanoseconds.
pub fn backoff_delay_ns(base_ms: u64, failures: u32, subsec_nanos: u32) -> (r: u64)
    ensures
        r == backoff_ns(base_ms, failures, subsec_nanos),
{
    let k: u32 = if failures < 6 {
        failures
    } else {
        6
    };
    let mult: u128 = if k == 0 {
        1
    } else if k == 1 {
        2
    } else if k == 2 {
        4
    } else if k == 3 {
        8
    } else if k == 4 {
        16
    } else if k == 5 {
        32
    } else {
        64
    };
    let base: u128 = base_ms as u128 * 1_000_000u128;
    proof {
        vstd::arithmetic::power2::lemma2_to64();
        assert(mult == vstd::arithmetic::power2::pow2(k as nat));
        assert(mult <= 64);
        assert(base * mult <= 0xffff_ffff_ffff_ffff * 1_000_000 * 64) by (nonlinear_arith)
            requires
                base <= 0xffff_ffff_ffff_ffff * 1_000_000,
                mult <= 64,
        ;
    }
    let exp: u128 = base * mult;
    let capped: u64 = if exp < BACKOFF_CAP_NS as u128 {
        exp as u64
    } else {
        BACKOFF_CAP_NS
    };
    let half: u64 = capped / 2;
    let jitter: u64 = if half == 0 {
        0
    } else {
        subsec_nanos as u64 % half
    };
    capped - half + jitter
}

/// What the renewal task does next.
#[derive(Debug, Clone, Copy, PartialEq, Eq)]
pub enum RenewalAction {
    /// Sleep the check interval, then check again.
    Wait,
    /// Ask the renewer for a fresh certificate.
    Renew,
    /// The certificate needs renewal but no renewer is configured: warn and
    /// wait.
    WarnNoRenewer,
    /// Sleep this many nanoseconds before the next check.
    BackOff(u64),
}

/// The state of a renewal task.
#[derive(Debug, Clone, Copy, PartialEq, Eq)]
pub struct RenewalLoop {
    /// Milliseconds between checks.
    pub check_interval_ms: u64,
    /// Renew when less than this percentage of validity remains.
    pub threshold_pct: u64,
    /// Consecutive failed renewals.
    pub failures: u32,
    pub has_renewer: bool,
}

impl RenewalLoop {
    /// The task for a policy; `None` for manual renewal (no task runs).
    pub fn start(policy: RenewalPolicy, has_renewer: bool) -> (r: Option<RenewalLoop>)
        ensures
            match interval_of(policy) {
                None => r is None,
                Some(ms) => r == Some(
                    RenewalLoop { check_interval_ms: ms, threshold_pct: threshold_of(policy), failures: 0, has_renewer },
                ),
            },
    {
        match check_interval_ms(policy) {
            None => None,
            Some(ms) => Some(
                RenewalLoop { check_interval_ms: ms, threshold_pct: threshold_pct(policy), failures: 0, has_renewer },
            ),
        }
    }

    /// After a check: a certificate that does not need renewal resets the
    /// failure count; one that does is renewed, or warned about when there
    /// is no renewer.
    pub fn on_check(&mut self, needed: bool) -> (r: RenewalAction)
        ensures
            final(self).check_interval_ms == old(self).check_interval_ms,
            final(self).threshold_pct == old(self).threshold_pct,
            final(self).has_renewer == old(self).has_renewer,
            !needed ==> r == RenewalAction::Wait && final(self).failures == 0,
            needed ==> final(self).failures == old(self).failures && r == if old(self).has_renewer {
                RenewalAction::Renew
            } else {
                RenewalAction::WarnNoRenewer
            },
    {
        if !needed {
            self.failures = 0;
            return RenewalAction::Wait;
        }
        if self.has_renewer {
            RenewalAction::Renew
        } else {
            RenewalAction::WarnNoRenewer
        }
    }

    /// After a renewal attempt: success resets the failure count; failure
    /// counts one more (saturating) and backs off.
    pub fn on_renewed(&mut self, ok: bool, subsec_nanos: u32) -> (r: RenewalAction)
        ensures
            final(self).check_interval_ms == old(self).check_interval_ms,
            final(self).threshold_pct == old(self).threshold_pct,
            final(self).has_renewer == old(self).has_renewer,
            ok ==> r == RenewalAction::Wait && final(self).failures == 0,
            !ok ==> final(self).failures == (if old(self).failures == u32::MAX {
                u32::MAX
            } else {
                (old(self).failures + 1) as u32
            }) && r == RenewalAction::BackOff(
                backoff_ns(old(self).check_interval_ms, final(self).failures, subsec_nanos) as u64,
            ),
    {
        if ok {
            self.failures = 0;
            return RenewalAction::Wait;
        }
        self.failures = self.failures.saturating_add(1);
        RenewalAction::BackOff(backoff_delay_ns(self.check_interval_ms, self.failures, subsec_nanos))
    }
}

/// A backoff is never negative and never exceeds the one-hour cap.
pub proof fn lemma_backoff_bounded(base_ms: u64, failures: u32, subsec_nanos: u32)
    ensures
        backoff_ns(base_ms, failures, subsec_nanos) <= BACKOFF_CAP_NS,
        backoff_ns(base_ms, failures, subsec_nanos) >= 0,
{
    let k: nat = if failures < 6 {
        failures as nat
    } else {
        6
    };
    vstd::arithmetic::power2::lemma_pow2_pos(k);
    let exp: int = base_ms * 1_000_000 * vstd::arithmetic::power2::pow2(k);
    assert(exp >= 0) by (nonlinear_arith)
        requires
            base_ms >= 0,
            vstd::arithmetic::power2::pow2(k) > 0,
            exp == base_ms * 1_000_000 * vstd::arithmetic::power2::pow2(k),
    ;
}

/// `floor(x / t) < p` exactly when `x < p * t`.
proof fn lemma_floor_div_below(x: int, t: int, p: int)
    requires
        t > 0,
        x >= 0,
    ensures
        (x / t < p) <==> (x < p * t),
{
    let q = x / t;
    let r = x % t;
    vstd::arithmetic::div_mod::lemma_fundamental_div_mod(x, t);
    vstd::arithmetic::div_mod::lemma_mod_pos_bound(x, t);
    assert((q < p) <==> (x < p * t)) by (nonlinear_arith)
        requires
            x == t * q + r,
            0 <= r < t,
            t > 0,
    ;
}

/// The renewal decision against the policy's threshold `pct`: a
/// certificate with a non-empty validity period needs renewal exactly when
/// the time left, in percent of the period, is below `pct`
/// (`100 * remaining < pct * total`, with nothing left after `until`); an
/// empty period never does. So the decision only grows with `pct`: a zero
/// threshold never renews, and a threshold above 100 renews every
/// certificate already in its period.
pub proof fn lemma_renewal_threshold(from: u64, until: u64, now: u64, pct: u64, higher: u64)
    requires
        pct <= higher,
    ensures
        from < until ==> (needs_renewal_at(from, until, now, pct) <==> 100 * (if now < until {
            until - now
        } else {
            0
        }) < pct * (until - from)),
        until <= from ==> !needs_renewal_at(from, until, now, pct),
        needs_renewal_at(from, until, now, pct) ==> needs_renewal_at(from, until, now, higher),
        pct == 0 ==> !needs_renewal_at(from, until, now, pct),
        from < until && from <= now && pct > 100 ==> needs_renewal_at(from, until, now, pct),
{
    if from < until {
        let total: int = until - from;
        let remaining: int = if until > now { until - now } else { 0 };
        lemma_floor_div_below(remaining * 100, total, pct as int);
        lemma_floor_div_below(remaining * 100, total, higher as int);
        assert(pct * total <= higher * total) by (nonlinear_arith)
            requires
                pct <= higher,
                total > 0,
        ;
        if from <= now {
            assert(remaining <= total);
            if pct > 100 {
                assert(remaining * 100 <= total * 100);
                assert(total * 100 < pct * total) by (nonlinear_arith)
                    requires
                        pct > 100,
                        total > 0,
                ;
            }
        }
    }
}

} // verus!
