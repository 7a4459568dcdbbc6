//! ACME certificate upkeep: the on-disk cache layout, the expiry status of
//! a cached leaf certificate, and when it is due for renewal.

use vstd::prelude::*;

use x509_parser::prelude::FromDer;

verus! {

#[verifier::external_type_specification]
#[verifier::external_body]
pub struct ExJsonValue(serde_json::Value);

/// Renew when at most this many whole days are left.
pub const RENEW_THRESHOLD_DAYS: i64 = 30;

/// Seconds in a day.
pub const SECS_PER_DAY: i64 = 86400;

/// The DER of the first certificate in a PEM text, as `rustls-pemfile`
/// reads it.
pub uninterp spec fn pem_first_cert(pem: Seq<u8>) -> Option<Seq<u8>>;

/// `rustls_pemfile::certs(..).next()`: the first certificate of the PEM
/// text, or `None` when there is none or it does not read.
#[verifier::external_body]
fn first_pem_cert(pem: &[u8]) -> (r: Option<Vec<u8>>)
    ensures
        match pem_first_cert(pem@) {
            Some(d) => r matches Some(v) && v@ == d,
            None => r is None,
        },
{
    let mut reader = std::io::BufReader::new(pem);
    let der = rustls_pemfile::certs(&mut reader).next()?.ok()?;
    Some(der.as_ref().to_vec())
}

/// The `notAfter` (UNIX seconds) of a DER certificate, as `x509-parser`
/// reads it.
pub uninterp spec fn der_not_after(der: Seq<u8>) -> Option<i64>;

/// `X509Certificate::from_der`, then `validity().not_after.timestamp()`;
/// `None` when the DER does not parse.
#[verifier::external_body]
fn not_after_of_der(der: &[u8]) -> (r: Option<i64>)
    ensures
        r == der_not_after(der@),
{
    let (_, cert) = x509_parser::certificate::X509Certificate::from_der(der).ok()?;
    Some(cert.validity().not_after.timestamp())
}

/// The leaf certificate's `notAfter`, if the PEM has a parseable one.
pub open spec fn leaf_not_after(pem: Seq<u8>) -> Option<i64> {
    match pem_first_cert(pem) {
        Some(d) => der_not_after(d),
        None => None,
    }
}

fn leaf_not_after_unix(cert_pem: &[u8]) -> (r: Option<i64>)
    ensures
        r == leaf_not_after(cert_pem@),
{
    match first_pem_cert(cert_pem) {
        Some(der) => not_after_of_der(der.as_slice()),
        None => None,
    }
}

/// Whole days from `now` to `not_after`, rounded down: negative once past.
pub open spec fn days_left(not_after: i64, now: i64) -> int {
    (not_after - now) / (SECS_PER_DAY as int)
}

/// Whole days from `now` to `not_after`, rounded down.
pub fn days_between(not_after: i64, now: i64) -> (r: i64)
    ensures
        r == days_left(not_after, now),
{
    let d: i128 = not_after as i128 - now as i128;
    proof {
        assert(-0x1_0000_0000_0000_0000i128 <= d <= 0x1_0000_0000_0000_0000i128);
    }
    let q: i128 = if d >= 0 {
        d / 86400
    } else {
        let p: i128 = -d;
        let t: i128 = p / 86400;
        let m: i128 = p % 86400;
        proof {
            assert(p == 86400 * t + m && 0 <= m < 86400) by (nonlinear_arith)
                requires
                    p > 0,
                    t == p / 86400,
                    m == p % 86400,
            ;
        }
        if m == 0 {
            proof {
                assert(d / 86400 == -t) by (nonlinear_arith)
                    requires
                        d == -(86400 * t),
                ;
            }
            -t
        } else {
            proof {
                assert(d / 86400 == -t - 1) by (nonlinear_arith)
                    requires
                        d == 86400 * (-t - 1) + (86400 - m),
                        0 < 86400 - m < 86400,
                ;
            }
            -t - 1
        }
    };
    proof {
        assert(-0x1_0000_0000_0000i128 <= q <= 0x1_0000_0000_0000i128) by (nonlinear_arith)
            requires
                q == d / 86400,
                -0x1_0000_0000_0000_0000i128 <= d <= 0x1_0000_0000_0000_0000i128,
        ;
    }
    q as i64
}

/// Read-only status of a provisioned leaf certificate.
#[derive(Debug, Clone, Copy, PartialEq, Eq, Structural)]
pub struct CertStatus {
    /// `notAfter`, seconds since the UNIX epoch.
    pub not_after_unix: i64,
    /// Whole days until `notAfter` (negative once expired).
    pub days_remaining: i64,
    /// Whether the certificate is within the renewal window.
    pub needs_renewal: bool,
}

/// The status at `now` of a certificate that expires at `not_after`.
pub open spec fn status_at(not_after: i64, now: i64) -> CertStatus {
    CertStatus {
        not_after_unix: not_after,
        days_remaining: days_left(not_after, now) as i64,
        needs_renewal: days_left(not_after, now) <= RENEW_THRESHOLD_DAYS,
    }
}

/// The status of the PEM's leaf certificate at `now` (UNIX seconds); `None`
/// when it has no parseable leaf certificate.
pub fn cert_status_at(cert_pem: &[u8], now: i64) -> (r: Option<CertStatus>)
    ensures
        match leaf_not_after(cert_pem@) {
            Some(t) => r == Some(status_at(t, now)),
            None => r is None,
        },
{
    let not_after = match leaf_not_after_unix(cert_pem) {
        Some(t) => t,
        None => return None,
    };
    let days = days_between(not_after, now);
    Some(CertStatus { not_after_unix: not_after, days_remaining: days, needs_renewal: days <= RENEW_THRESHOLD_DAYS })
}

/// The current time in UNIX seconds.
fn now_unix() -> i64 {
    crate::clock::now_secs() as i64
}

/// The status of the PEM's leaf certificate now.
pub fn cert_status(cert_pem: &[u8]) -> (r: Option<CertStatus>)
    ensures
        match leaf_not_after(cert_pem@) {
            Some(t) => exists|now: i64| r == Some(#[trigger] status_at(t, now)),
            None => r is None,
        },
{
    let now = now_unix();
    cert_status_at(cert_pem, now)
}

/// Whole days until the leaf certificate's `notAfter`, at `now`.
pub fn check_expiry_days_at(cert_pem: &[u8], now: i64) -> (r: Option<i64>)
    ensures
        match leaf_not_after(cert_pem@) {
            Some(t) => r == Some(days_left(t, now) as i64),
            None => r is None,
        },
{
    match leaf_not_after_unix(cert_pem) {
        Some(t) => Some(days_between(t, now)),
        None => None,
    }
}

/// Whole days until the leaf certificate's `notAfter`, now.
pub fn check_expiry_days(cert_pem: &[u8]) -> (r: Option<i64>)
    ensures
        match leaf_not_after(cert_pem@) {
            Some(t) => exists|now: i64| r == Some(#[trigger] days_left(t, now) as i64),
            None => r is None,
        },
{
    let now = now_unix();
    check_expiry_days_at(cert_pem, now)
}

/// Whether the certificate is due for renewal at `now`: within the window,
/// or (conservatively) unparseable.
pub fn needs_renewal_at(cert_pem: &[u8], now: i64) -> (r: Result<bool, String>)
    ensures
        r == Ok::<bool, String>(
            match leaf_not_after(cert_pem@) {
                Some(t) => days_left(t, now) <= RENEW_THRESHOLD_DAYS,
                None => true,
            },
        ),
{
    match check_expiry_days_at(cert_pem, now) {
        Some(d) => Ok(d <= RENEW_THRESHOLD_DAYS),
        None => Ok(true),
    }
}

/// Whether the certificate is due for renewal now.
pub fn needs_renewal(cert_pem: &[u8]) -> (r: Result<bool, String>)
    ensures
        match leaf_not_after(cert_pem@) {
            Some(t) => exists|now: i64| r == Ok::<bool, String>(#[trigger] days_left(t, now) <= RENEW_THRESHOLD_DAYS),
            None => r == Ok::<bool, String>(true),
        },
{
    let now = now_unix();
    needs_renewal_at(cert_pem, now)
}

/// The path `dir` joined with `file` by `/`: an absolute `file`, or an
/// empty `dir`, gives `file`; otherwise one separator stands between them.
pub open spec fn joined_path(dir: Seq<char>, file: Seq<char>) -> Seq<char> {
    if file.len() > 0 && file[0] == '/' {
        file
    } else if dir.len() == 0 {
        file
    } else if dir.last() == '/' {
        dir + file
    } else {
        dir + "/"@ + file
    }
}

/// `dir` joined with `file` (see [`joined_path`]).
pub fn path_join(dir: &str, file: &str) -> (r: String)
    ensures
        r@ == joined_path(dir@, file@),
{
    proof {
        reveal_strlit("/");
    }
    let nf = file.unicode_len();
    if nf > 0 && file.get_char(0) == '/' {
        return crate::text::string_from_static(file);
    }
    let nd = dir.unicode_len();
    if nd == 0 {
        return crate::text::string_from_static(file);
    }
    if dir.get_char(nd - 1) == '/' {
        return crate::text::concat2(dir, file);
    }
    crate::text::concat3(dir, "/", file)
}

/// The PEM certificate and key cached under a directory.
#[derive(Debug, Clone, PartialEq, Eq)]
pub struct CertCache {
    pub dir: String,
}

impl CertCache {
    /// A cache rooted at `dir` (which the caller has created).
    pub fn at(dir: String) -> (r: CertCache)
        ensures
            r.dir == dir,
    {
        CertCache { dir }
    }

    /// `<dir>/<domain>.cert.pem`.
    pub fn cert_path(&self, domain: &str) -> (r: String)
        ensures
            r@ == joined_path(self.dir@, domain@ + ".cert.pem"@),
    {
        let mut f = crate::text::string_from_static(domain);
        crate::text::push_text(&mut f, ".cert.pem");
        path_join(self.dir.as_str(), f.as_str())
    }

    /// `<dir>/<domain>.key.pem`.
    pub fn key_path(&self, domain: &str) -> (r: String)
        ensures
            r@ == joined_path(self.dir@, domain@ + ".key.pem"@),
    {
        let mut f = crate::text::string_from_static(domain);
        crate::text::push_text(&mut f, ".key.pem");
        path_join(self.dir.as_str(), f.as_str())
    }
}

/// A DNS TXT record to publish for a DNS-01 challenge.
#[derive(Debug, Clone, PartialEq, Eq)]
pub struct DnsRecord {
    pub name: String,
    pub value: String,
    pub ttl: u32,
}

/// A DNS provider for testbeds that publish records out of band: every
/// request succeeds and does nothing.
#[derive(Debug, Clone, Copy, PartialEq, Eq, Default)]
pub struct NoopDnsProvider;

impl NoopDnsProvider {
    pub fn upsert_txt(&self, params: &serde_json::Value, record: &DnsRecord) -> (r: Result<(), String>)
        ensures
            r is Ok,
    {
        Ok(())
    }

    pub fn delete_txt(&self, params: &serde_json::Value, record: &DnsRecord) -> (r: Result<(), String>)
        ensures
            r is Ok,
    {
        Ok(())
    }
}

} // verus!
