//! Certificate validity timestamps: the 15-byte `YYYYMMDDTHHMMSS` text (UTC,
//! proleptic Gregorian calendar) and its conversion to and from nanoseconds
//! since the UNIX epoch.

use vstd::prelude::*;

use crate::name_uri::{all_digits, digits_value, is_digit};

verus! {

/// Length in bytes of the canonical NDN ISO-8601 datetime form.
pub const ISO_DATETIME_LEN: usize = 15;

// ---------------------------------------------------------------------------
// The calendar
// ---------------------------------------------------------------------------

pub open spec fn is_leap(y: int) -> bool {
    y % 4 == 0 && (y % 100 != 0 || y % 400 == 0)
}

pub open spec fn leap_day(y: int) -> int {
    if is_leap(y) {
        1
    } else {
        0
    }
}

/// Days in month `m` (1-based) of year `y`.
pub open spec fn month_len(y: int, m: int) -> int {
    if m == 2 {
        28 + leap_day(y)
    } else if m == 4 || m == 6 || m == 9 || m == 11 {
        30
    } else {
        31
    }
}

/// Days of year `y` before the first of month `m` (1-based).
pub open spec fn days_before_month(y: int, m: int) -> int {
    let base: int = if m <= 1 {
        0
    } else if m == 2 {
        31
    } else if m == 3 {
        59
    } else if m == 4 {
        90
    } else if m == 5 {
        120
    } else if m == 6 {
        151
    } else if m == 7 {
        181
    } else if m == 8 {
        212
    } else if m == 9 {
        243
    } else if m == 10 {
        273
    } else if m == 11 {
        304
    } else {
        334
    };
    if m > 2 {
        base + leap_day(y)
    } else {
        base
    }
}

/// Number of leap years among the years `1..=y` (for `y >= 0`).
pub open spec fn leaps_through(y: int) -> int {
    y / 4 - y / 100 + y / 400
}

/// Days from 1970-01-01 to January 1st of year `y`.
pub open spec fn days_before_year(y: int) -> int {
    365 * (y - 1970) + leaps_through(y - 1) - leaps_through(1969)
}

/// Days from 1970-01-01 to the date `y-m-d`.
pub open spec fn day_number(y: int, m: int, d: int) -> int {
    days_before_year(y) + days_before_month(y, m) + d - 1
}

pub open spec fn valid_date(y: int, m: int, d: int) -> bool {
    1 <= m <= 12 && 1 <= d <= month_len(y, m)
}

/// The calendar date of the day `z` days after 1970-01-01.
pub open spec fn date_of(z: int) -> (int, int, int) {
    choose|y: int, m: int, d: int| valid_date(y, m, d) && day_number(y, m, d) == z
}

// ---------------------------------------------------------------------------
// The text
// ---------------------------------------------------------------------------

pub open spec fn pow10(n: nat) -> nat
    decreases n,
{
    if n == 0 {
        1
    } else {
        10 * pow10((n - 1) as nat)
    }
}

/// The last `n` decimal digits of `v`, most significant first, as ASCII.
pub open spec fn digits(v: nat, n: nat) -> Seq<u8>
    decreases n,
{
    if n == 0 {
        Seq::empty()
    } else {
        digits(v / 10, (n - 1) as nat).push((0x30 + v % 10) as u8)
    }
}

/// The text `YYYYMMDDTHHMMSS` of the given fields.
pub open spec fn iso_text(y: nat, mo: nat, d: nat, h: nat, mi: nat, s: nat) -> Seq<u8> {
    digits(y, 4) + digits(mo, 2) + digits(d, 2) + seq![0x54u8] + digits(h, 2) + digits(mi, 2)
        + digits(s, 2)
}

/// The text of the instant `secs` seconds after the epoch.
pub open spec fn iso_text_of_secs(secs: nat) -> Seq<u8> {
    let date = date_of((secs / 86400) as int);
    let r = secs % 86400;
    iso_text(date.0 as nat, date.1 as nat, date.2 as nat, r / 3600, (r % 3600) / 60, r % 60)
}

/// The decimal field `b[start..end]`, if it is made of digits.
pub open spec fn field(b: Seq<u8>, start: int, end: int) -> Option<nat> {
    let s = b.subrange(start, end);
    if all_digits(s) {
        Some(digits_value(s))
    } else {
        None
    }
}

/// The seconds since the epoch that the text `b` denotes, if it has the
/// `YYYYMMDDTHHMMSS` shape with month 1-12, day 1-31, hour 0-23, minute 0-59,
/// second 0-60, and is not before the epoch.
pub open spec fn iso_secs(b: Seq<u8>) -> Option<nat> {
    if b.len() != 15 || b[8] != 0x54 {
        None
    } else {
        match (field(b, 0, 4), field(b, 4, 6), field(b, 6, 8), field(b, 9, 11), field(b, 11, 13), field(b, 13, 15)) {
            (Some(y), Some(mo), Some(d), Some(h), Some(mi), Some(s)) => {
                let days = day_number(y as int, mo as int, d as int);
                if 1 <= mo <= 12 && 1 <= d <= 31 && h <= 23 && mi <= 59 && s <= 60 && days >= 0 {
                    Some((days * 86400 + h * 3600 + mi * 60 + s) as nat)
                } else {
                    None
                }
            },
            _ => None,
        }
    }
}

/// A text that is exactly what formatting some instant gives: a real date
/// from 1970 on, and a second below 60.
pub open spec fn canonical_iso(b: Seq<u8>) -> bool {
    &&& b.len() == 15
    &&& b[8] == 0x54
    &&& forall|i: int| 0 <= i < 15 && i != 8 ==> is_digit(#[trigger] b[i])
    &&& {
        let y = digits_value(b.subrange(0, 4)) as int;
        let mo = digits_value(b.subrange(4, 6)) as int;
        let d = digits_value(b.subrange(6, 8)) as int;
        &&& y >= 1970
        &&& valid_date(y, mo, d)
        &&& digits_value(b.subrange(9, 11)) <= 23
        &&& digits_value(b.subrange(11, 13)) <= 59
        &&& digits_value(b.subrange(13, 15)) <= 59
    }
}

// ---------------------------------------------------------------------------
// Calendar lemmas
// ---------------------------------------------------------------------------

/// The era arithmetic of the day count, as the conversion computes it.
pub open spec fn era_days(y: int, m: int, d: int) -> int {
    let yy = if m <= 2 {
        y - 1
    } else {
        y
    };
    let era = yy / 400;
    let yoe = yy % 400;
    let mp = if m > 2 {
        m - 3
    } else {
        m + 9
    };
    let doy = (153 * mp + 2) / 5 + d - 1;
    era * 146097 + 365 * yoe + yoe / 4 - yoe / 100 + doy - 719468
}

#[verifier::spinoff_prover]
proof fn lemma_era_days(y: int, m: int, d: int)
    requires
        1 <= m <= 12,
    ensures
        era_days(y, m, d) == day_number(y, m, d),
{
    let yy = if m <= 2 {
        y - 1
    } else {
        y
    };
    let era = yy / 400;
    let yoe = yy % 400;
    assert(yy == 400 * era + yoe);
    assert(yy / 4 == 100 * era + yoe / 4);
    assert(yy / 100 == 4 * era + yoe / 100);
    assert(yy / 400 == era);
    assert(leaps_through(y) - leaps_through(y - 1) == leap_day(y));
}

#[verifier::spinoff_prover]
proof fn lemma_year_of_era(doe: int)
    requires
        0 <= doe <= 146096,
    ensures
        ({
            let yoe = (doe - doe / 1460 + doe / 36524 - doe / 146096) / 365;
            &&& 0 <= yoe <= 399
            &&& 365 * yoe + yoe / 4 - yoe / 100 <= doe
            &&& doe < 365 * yoe + yoe / 4 - yoe / 100 + 365 + (if (yoe + 1) % 4 == 0 && ((yoe
                + 1) % 100 != 0 || yoe == 399) {
                1int
            } else {
                0int
            })
        }),
{
}

/// Month and day of the `doy`-th day (0-based) of a year that starts on
/// March 1st.
#[verifier::spinoff_prover]
proof fn lemma_day_of_march_year(doy: int, leap: int)
    requires
        0 <= leap <= 1,
        0 <= doy < 365 + leap,
    ensures
        ({
            let mp = (5 * doy + 2) / 153;
            let m = if mp < 10 {
                mp + 3
            } else {
                mp - 9
            };
            let d = doy - (153 * mp + 2) / 5 + 1;
            &&& 0 <= mp <= 11
            &&& 1 <= d
            &&& d <= (if m == 2 {
                28 + leap
            } else if m == 4 || m == 6 || m == 9 || m == 11 {
                30
            } else {
                31
            })
        }),
{
}

/// The date computed from a day count by era arithmetic.
pub open spec fn civil_of(z: int) -> (int, int, int) {
    let zz = z + 719468;
    let era = zz / 146097;
    let doe = zz - era * 146097;
    let yoe = (doe - doe / 1460 + doe / 36524 - doe / 146096) / 365;
    let y = yoe + era * 400;
    let doy = doe - (365 * yoe + yoe / 4 - yoe / 100);
    let mp = (5 * doy + 2) / 153;
    let d = doy - (153 * mp + 2) / 5 + 1;
    let m = if mp < 10 {
        mp + 3
    } else {
        mp - 9
    };
    (if m <= 2 {
        y + 1
    } else {
        y
    }, m, d)
}

#[verifier::spinoff_prover]
proof fn lemma_civil_of(z: int)
    requires
        z >= -719468,
    ensures
        valid_date(civil_of(z).0, civil_of(z).1, civil_of(z).2),
        day_number(civil_of(z).0, civil_of(z).1, civil_of(z).2) == z,
{
    let zz = z + 719468;
    let era = zz / 146097;
    let doe = zz - era * 146097;
    lemma_year_of_era(doe);
    let yoe = (doe - doe / 1460 + doe / 36524 - doe / 146096) / 365;
    let y = yoe + era * 400;
    let doy = doe - (365 * yoe + yoe / 4 - yoe / 100);
    let leap = if (yoe + 1) % 4 == 0 && ((yoe + 1) % 100 != 0 || yoe == 399) {
        1int
    } else {
        0int
    };
    lemma_day_of_march_year(doy, leap);
    let (yf, m, d) = civil_of(z);
    assert(leap == leap_day(y + 1));
    lemma_era_days(yf, m, d);
    let yy = if m <= 2 {
        yf - 1
    } else {
        yf
    };
    assert(yy == y);
    assert(yy / 400 == era);
    assert(yy % 400 == yoe);
}

#[verifier::spinoff_prover]
proof fn lemma_year_len(y: int)
    ensures
        days_before_year(y + 1) - days_before_year(y) == 365 + leap_day(y),
{
    assert(leaps_through(y) - leaps_through(y - 1) == leap_day(y));
}

#[verifier::spinoff_prover]
proof fn lemma_days_before_year_mono(a: int, b: int)
    requires
        a <= b,
    ensures
        days_before_year(a) + 365 * (b - a) <= days_before_year(b),
    decreases b - a,
{
    if a < b {
        lemma_days_before_year_mono(a, b - 1);
        lemma_year_len(b - 1);
    }
}

/// A date's day number falls inside its year.
#[verifier::spinoff_prover]
proof fn lemma_day_in_year(y: int, m: int, d: int)
    requires
        valid_date(y, m, d),
    ensures
        days_before_year(y) <= day_number(y, m, d) < days_before_year(y + 1),
{
    lemma_year_len(y);
}

/// Distinct dates have distinct day numbers.
#[verifier::spinoff_prover]
pub proof fn lemma_day_number_injective(y1: int, m1: int, d1: int, y2: int, m2: int, d2: int)
    requires
        valid_date(y1, m1, d1),
        valid_date(y2, m2, d2),
        day_number(y1, m1, d1) == day_number(y2, m2, d2),
    ensures
        y1 == y2 && m1 == m2 && d1 == d2,
{
    lemma_day_in_year(y1, m1, d1);
    lemma_day_in_year(y2, m2, d2);
    if y1 < y2 {
        lemma_days_before_year_mono(y1 + 1, y2);
    } else if y2 < y1 {
        lemma_days_before_year_mono(y2 + 1, y1);
    }
    assert(y1 == y2);
}

/// Every day count from year 0 on names exactly one date.
#[verifier::spinoff_prover]
pub proof fn lemma_date_of(z: int)
    requires
        z >= -719468,
    ensures
        date_of(z) == civil_of(z),
        valid_date(date_of(z).0, date_of(z).1, date_of(z).2),
        day_number(date_of(z).0, date_of(z).1, date_of(z).2) == z,
{
    lemma_civil_of(z);
    let c = civil_of(z);
    assert(valid_date(c.0, c.1, c.2) && day_number(c.0, c.1, c.2) == z);
    let t = date_of(z);
    lemma_day_number_injective(t.0, t.1, t.2, c.0, c.1, c.2);
}

// ---------------------------------------------------------------------------
// Digit lemmas
// ---------------------------------------------------------------------------

#[verifier::spinoff_prover]
proof fn lemma_digits_shape(v: nat, n: nat)
    ensures
        digits(v, n).len() == n,
        all_digits(digits(v, n)),
        v < pow10(n) ==> digits_value(digits(v, n)) == v,
    decreases n,
{
    if n > 0 {
        lemma_digits_shape(v / 10, (n - 1) as nat);
        let t = digits(v, n);
        assert(t.drop_last() =~= digits(v / 10, (n - 1) as nat));
        assert forall|i: int| 0 <= i < t.len() implies is_digit(#[trigger] t[i]) by {
            if i < t.len() - 1 {
                assert(t[i] == digits(v / 10, (n - 1) as nat)[i]);
            }
        }
    }
}

#[verifier::spinoff_prover]
proof fn lemma_value_bound(s: Seq<u8>)
    requires
        all_digits(s),
    ensures
        digits_value(s) < pow10(s.len()),
    decreases s.len(),
{
    if s.len() > 0 {
        assert(all_digits(s.drop_last())) by {
            assert forall|i: int| 0 <= i < s.drop_last().len() implies is_digit(
                #[trigger] s.drop_last()[i],
            ) by {
                assert(s.drop_last()[i] == s[i]);
            }
        }
        lemma_value_bound(s.drop_last());
        assert(is_digit(s[s.len() - 1]));
    }
}

#[verifier::spinoff_prover]
proof fn lemma_digits_of_value(s: Seq<u8>)
    requires
        all_digits(s),
    ensures
        digits(digits_value(s), s.len()) == s,
    decreases s.len(),
{
    if s.len() > 0 {
        let p = s.drop_last();
        assert(all_digits(p)) by {
            assert forall|i: int| 0 <= i < p.len() implies is_digit(#[trigger] p[i]) by {
                assert(p[i] == s[i]);
            }
        }
        lemma_digits_of_value(p);
        assert(is_digit(s[s.len() - 1]));
        let v = digits_value(s);
        assert(v / 10 == digits_value(p));
        assert((0x30 + v % 10) as u8 == s.last());
        assert(digits(v, s.len()) =~= digits(digits_value(p), p.len()).push(s.last()));
        assert(p.push(s.last()) =~= s);
    }
}

// ---------------------------------------------------------------------------
// Laws
// ---------------------------------------------------------------------------

#[verifier::spinoff_prover]
proof fn lemma_text_fields(y: nat, mo: nat, d: nat, h: nat, mi: nat, s: nat)
    ensures
        iso_text(y, mo, d, h, mi, s).len() == 15,
        iso_text(y, mo, d, h, mi, s)[8] == 0x54,
        iso_text(y, mo, d, h, mi, s).subrange(0, 4) == digits(y, 4),
        iso_text(y, mo, d, h, mi, s).subrange(4, 6) == digits(mo, 2),
        iso_text(y, mo, d, h, mi, s).subrange(6, 8) == digits(d, 2),
        iso_text(y, mo, d, h, mi, s).subrange(9, 11) == digits(h, 2),
        iso_text(y, mo, d, h, mi, s).subrange(11, 13) == digits(mi, 2),
        iso_text(y, mo, d, h, mi, s).subrange(13, 15) == digits(s, 2),
{
    lemma_digits_shape(y, 4);
    lemma_digits_shape(mo, 2);
    lemma_digits_shape(d, 2);
    lemma_digits_shape(h, 2);
    lemma_digits_shape(mi, 2);
    lemma_digits_shape(s, 2);
    let t = iso_text(y, mo, d, h, mi, s);
    assert(t.subrange(0, 4) =~= digits(y, 4));
    assert(t.subrange(4, 6) =~= digits(mo, 2));
    assert(t.subrange(6, 8) =~= digits(d, 2));
    assert(t.subrange(9, 11) =~= digits(h, 2));
    assert(t.subrange(11, 13) =~= digits(mi, 2));
    assert(t.subrange(13, 15) =~= digits(s, 2));
}

/// The year of any day from 1970-01-01 up to 9999-12-31.
#[verifier::spinoff_prover]
proof fn lemma_year_range(z: int)
    requires
        0 <= z < 2932897,
    ensures
        1970 <= date_of(z).0 <= 9999,
{
    lemma_date_of(z);
    let (y, m, d) = date_of(z);
    lemma_day_in_year(y, m, d);
    if y < 1970 {
        lemma_days_before_year_mono(y + 1, 1970);
    }
    if y > 9999 {
        lemma_days_before_year_mono(10000, y);
    }
}

/// Reading back the text of an instant (from the epoch up to the end of year
/// 9999) gives that instant.
#[verifier::spinoff_prover]
#[verifier::rlimit(80)]
pub proof fn lemma_format_then_parse(secs: nat)
    requires
        secs < 253_402_300_800,
    ensures
        iso_secs(iso_text_of_secs(secs)) == Some(secs),
{
    let z = (secs / 86400) as int;
    lemma_date_of(z);
    lemma_year_range(z);
    let (y, m, d) = date_of(z);
    let r = secs % 86400;
    let (h, mi, s) = (r / 3600, (r % 3600) / 60, r % 60);
    lemma_text_fields(y as nat, m as nat, d as nat, h, mi, s);
    lemma_digits_shape(y as nat, 4);
    lemma_digits_shape(m as nat, 2);
    lemma_digits_shape(d as nat, 2);
    lemma_digits_shape(h, 2);
    lemma_digits_shape(mi, 2);
    lemma_digits_shape(s, 2);
    assert(pow10(4) == 10000) by {
        reveal_with_fuel(pow10, 5);
    }
    assert(pow10(2) == 100) by {
        reveal_with_fuel(pow10, 3);
    }
}

/// Formatting the instant that a canonical text denotes gives that text.
#[verifier::spinoff_prover]
#[verifier::rlimit(80)]
pub proof fn lemma_parse_then_format(b: Seq<u8>)
    requires
        canonical_iso(b),
    ensures
        iso_secs(b) matches Some(secs) && iso_text_of_secs(secs) == b,
{
    let fy = b.subrange(0, 4);
    let fmo = b.subrange(4, 6);
    let fd = b.subrange(6, 8);
    let fh = b.subrange(9, 11);
    let fmi = b.subrange(11, 13);
    let fs = b.subrange(13, 15);
    assert forall|lo: int, hi: int|
        (lo == 0 && hi == 4 || lo == 4 && hi == 6 || lo == 6 && hi == 8 || lo == 9 && hi == 11
            || lo == 11 && hi == 13 || lo == 13 && hi == 15) implies #[trigger] all_digits(
        b.subrange(lo, hi),
    ) by {
        assert forall|i: int| 0 <= i < hi - lo implies is_digit(#[trigger] b.subrange(lo, hi)[i]) by {
            assert(b.subrange(lo, hi)[i] == b[lo + i]);
        }
    }
    assert(all_digits(fy));
    assert(all_digits(fmo));
    assert(all_digits(fd));
    assert(all_digits(fh));
    assert(all_digits(fmi));
    assert(all_digits(fs));
    let y = digits_value(fy) as int;
    let mo = digits_value(fmo) as int;
    let d = digits_value(fd) as int;
    let h = digits_value(fh);
    let mi = digits_value(fmi);
    let s = digits_value(fs);
    let dn = day_number(y, mo, d);
    lemma_day_in_year(y, mo, d);
    lemma_days_before_year_mono(1970, y);
    assert(dn >= 0);
    let secs = (dn * 86400 + h * 3600 + mi * 60 + s) as nat;
    assert(iso_secs(b) == Some(secs));
    assert(secs / 86400 == dn);
    assert(secs % 86400 == h * 3600 + mi * 60 + s);
    lemma_date_of(dn);
    let t = date_of(dn);
    lemma_day_number_injective(t.0, t.1, t.2, y, mo, d);
    lemma_digits_of_value(fy);
    lemma_digits_of_value(fmo);
    lemma_digits_of_value(fd);
    lemma_digits_of_value(fh);
    lemma_digits_of_value(fmi);
    lemma_digits_of_value(fs);
    let r = secs % 86400;
    assert(r / 3600 == h);
    assert((r % 3600) / 60 == mi);
    assert(r % 60 == s);
    assert(iso_text_of_secs(secs) =~= fy + fmo + fd + seq![0x54u8] + fh + fmi + fs);
    assert(fy + fmo + fd + seq![0x54u8] + fh + fmi + fs =~= b);
}

// ---------------------------------------------------------------------------
// Executable conversion
// ---------------------------------------------------------------------------

/// Write the last `len` decimal digits of `v` into `slot[start..start + len]`.
#[verifier::spinoff_prover]
fn write_u32(slot: &mut [u8; ISO_DATETIME_LEN], start: usize, len: usize, v: u32)
    requires
        start + len <= ISO_DATETIME_LEN,
    ensures
        final(slot)@ == old(slot)@.subrange(0, start as int) + digits(v as nat, len as nat) + old(
            slot,
        )@.subrange(start + len, ISO_DATETIME_LEN as int),
{
    let mut v = v;
    let mut i = len;
    let ghost v0 = v as nat;
    let ghost orig = slot@;
    proof {
        assert(orig.subrange(start + len, start + len) =~= Seq::<u8>::empty());
    }
    while i > 0
        invariant
            i <= len,
            start + len <= ISO_DATETIME_LEN,
            slot@.len() == ISO_DATETIME_LEN,
            orig.len() == ISO_DATETIME_LEN,
            slot@.subrange(0, (start + i) as int) == orig.subrange(0, (start + i) as int),
            slot@.subrange(start + len, ISO_DATETIME_LEN as int) == orig.subrange(
                start + len,
                ISO_DATETIME_LEN as int,
            ),
            digits(v0, len as nat) == digits(v as nat, i as nat) + slot@.subrange(
                start + i,
                start + len,
            ),
        decreases i,
    {
        let ghost before = slot@;
        let c = 0x30 + (v % 10) as u8;
        slot[start + i - 1] = c;
        proof {
            assert(digits(v as nat, i as nat) == digits((v / 10) as nat, (i - 1) as nat).push(c));
            assert(slot@.subrange(start + i - 1, start + len) =~= seq![c] + before.subrange(
                start + i,
                start + len,
            ));
            assert(slot@.subrange(0, (start + i - 1) as int) =~= before.subrange(
                0,
                (start + i - 1) as int,
            ));
            assert(before.subrange(0, (start + i - 1) as int) =~= orig.subrange(
                0,
                (start + i - 1) as int,
            )) by {
                assert forall|k: int| 0 <= k < start + i - 1 implies before[k] == orig[k] by {
                    assert(before.subrange(0, (start + i) as int)[k] == orig.subrange(
                        0,
                        (start + i) as int,
                    )[k]);
                }
            }
            assert(slot@.subrange(start + len, ISO_DATETIME_LEN as int) =~= before.subrange(
                start + len,
                ISO_DATETIME_LEN as int,
            ));
        }
        v = v / 10;
        i = i - 1;
    }
    proof {
        assert(slot@ =~= orig.subrange(0, start as int) + digits(v0, len as nat) + orig.subrange(
            start + len,
            ISO_DATETIME_LEN as int,
        ));
    }
}

/// The decimal value of `s[start..end]`, if every byte is a digit.
#[verifier::spinoff_prover]
fn read_u32(s: &[u8], start: usize, end: usize) -> (r: Option<u32>)
    requires
        start <= end <= s@.len(),
        end - start <= 9,
    ensures
        match field(s@, start as int, end as int) {
            None => r is None,
            Some(v) => r matches Some(w) && w == v,
        },
{
    let mut v: u32 = 0;
    let mut i = start;
    while i < end
        invariant
            start <= i <= end <= s@.len(),
            end - start <= 9,
            all_digits(s@.subrange(start as int, i as int)),
            v == digits_value(s@.subrange(start as int, i as int)),
        decreases end - i,
    {
        let b = s[i];
        if !(0x30 <= b && b <= 0x39) {
            proof {
                assert(!is_digit(s@.subrange(start as int, end as int)[i - start]));
            }
            return None;
        }
        let ghost pre = s@.subrange(start as int, i as int);
        let ghost next = s@.subrange(start as int, i + 1);
        proof {
            assert(next.drop_last() =~= pre);
            assert forall|k: int| 0 <= k < next.len() implies is_digit(#[trigger] next[k]) by {
                if k < pre.len() {
                    assert(next[k] == pre[k]);
                }
            }
            lemma_value_bound(next);
            assert(pow10(9) == 1_000_000_000) by {
                reveal_with_fuel(pow10, 10);
            }
            lemma_pow10_mono(next.len(), 9);
        }
        v = v * 10 + (b - 0x30) as u32;
        i = i + 1;
    }
    Some(v)
}

#[verifier::spinoff_prover]
proof fn lemma_pow10_mono(a: nat, b: nat)
    requires
        a <= b,
    ensures
        pow10(a) <= pow10(b),
    decreases b,
{
    if a < b {
        lemma_pow10_mono(a, (b - 1) as nat);
    }
}

/// Year, month and day of the day `z` after 1970-01-01.
#[verifier::spinoff_prover]
fn civil_from_days(z: i64) -> (r: (u32, u32, u32))
    requires
        0 <= z <= 213_503,
    ensures
        (r.0 as int, r.1 as int, r.2 as int) == date_of(z as int),
{
    proof {
        lemma_date_of(z as int);
        lemma_year_range(z as int);
    }
    let z = z + 719_468;
    let era = if z >= 0 {
        z
    } else {
        z - 146_096
    } / 146_097;
    let doe = (z - era * 146_097) as u64;
    let yoe = (doe - doe / 1460 + doe / 36_524 - doe / 146_096) / 365;
    proof {
        lemma_year_of_era(doe as int);
    }
    let y = yoe as i64 + era * 400;
    let doy = doe - (365 * yoe + yoe / 4 - yoe / 100);
    let mp = (5 * doy + 2) / 153;
    let d = doy - (153 * mp + 2) / 5 + 1;
    let m = if mp < 10 {
        mp + 3
    } else {
        mp - 9
    };
    let y = if m <= 2 {
        y + 1
    } else {
        y
    };
    (y as u32, m as u32, d as u32)
}

/// Day count since 1970-01-01 of the date `y-m-d`, by era arithmetic.
#[verifier::spinoff_prover]
fn days_from_civil(y: u32, m: u32, d: u32) -> (r: i64)
    requires
        y <= 9999,
        1 <= m <= 12,
        1 <= d <= 31,
    ensures
        r == day_number(y as int, m as int, d as int),
{
    proof {
        lemma_era_days(y as int, m as int, d as int);
    }
    let y = if m <= 2 {
        y as i64 - 1
    } else {
        y as i64
    };
    let era = if y >= 0 {
        y
    } else {
        y - 399
    } / 400;
    let yoe = (y - era * 400) as u64;
    let doy = (153 * (if m > 2 {
        m - 3
    } else {
        m + 9
    }) as u64 + 2) / 5 + d as u64 - 1;
    let doe = yoe * 365 + yoe / 4 - yoe / 100 + doy;
    era * 146_097 + doe as i64 - 719_468
}

/// Calendar fields of `secs` seconds after the epoch.
#[verifier::spinoff_prover]
fn unix_secs_to_ymdhms(secs: u64) -> (r: (u32, u32, u32, u32, u32, u32))
    requires
        secs <= 18_446_744_073,
    ensures
        (r.0 as int, r.1 as int, r.2 as int) == date_of((secs / 86400) as int),
        r.3 == (secs % 86400) / 3600,
        r.4 == (secs % 86400 % 3600) / 60,
        r.5 == secs % 86400 % 60,
{
    let days = (secs / 86_400) as i64;
    let secs_in_day = (secs % 86_400) as u32;
    let h = secs_in_day / 3600;
    let mi = (secs_in_day % 3600) / 60;
    let s = secs_in_day % 60;
    let (y, mo, d) = civil_from_days(days);
    (y, mo, d, h, mi, s)
}

/// Seconds since the epoch of the given fields, when they are in range and
/// not before the epoch.
#[verifier::spinoff_prover]
fn ymdhms_to_unix_secs(y: u32, mo: u32, d: u32, h: u32, mi: u32, s: u32) -> (r: Option<u64>)
    requires
        y <= 9999,
    ensures
        ({
            let days = day_number(y as int, mo as int, d as int);
            if 1 <= mo <= 12 && 1 <= d <= 31 && h <= 23 && mi <= 59 && s <= 60 && days >= 0 {
                r == Some((days * 86400 + h * 3600 + mi * 60 + s) as u64)
            } else {
                r is None
            }
        }),
{
    if !(1 <= mo && mo <= 12) || !(1 <= d && d <= 31) || h > 23 || mi > 59 || s > 60 {
        return None;
    }
    let days = days_from_civil(y, mo, d);
    if days < 0 {
        return None;
    }
    proof {
        lemma_days_before_year_mono(y as int, 9999);
        lemma_year_len(9999);
        assert(days_before_month(y as int, mo as int) <= 335);
    }
    Some(days as u64 * 86_400 + h as u64 * 3600 + mi as u64 * 60 + s as u64)
}

/// Format a UNIX-epoch nanosecond timestamp as the 15-byte `YYYYMMDDTHHMMSS`
/// ASCII text of certificate `ValidityPeriod` fields.
#[verifier::spinoff_prover]
pub fn format_iso_basic(unix_ns: u64) -> (r: [u8; ISO_DATETIME_LEN])
    ensures
        r@ == iso_text_of_secs((unix_ns / 1_000_000_000) as nat),
{
    let secs = unix_ns / 1_000_000_000;
    let (y, mo, d, h, mi, s) = unix_secs_to_ymdhms(secs);
    let mut out = [0x30u8; ISO_DATETIME_LEN];
    write_u32(&mut out, 0, 4, y);
    write_u32(&mut out, 4, 2, mo);
    write_u32(&mut out, 6, 2, d);
    let ghost before = out@;
    out[8] = 0x54;
    proof {
        assert(out@ =~= before.update(8, 0x54u8));
    }
    write_u32(&mut out, 9, 2, h);
    write_u32(&mut out, 11, 2, mi);
    write_u32(&mut out, 13, 2, s);
    proof {
        lemma_digits_shape(y as nat, 4);
        lemma_digits_shape(mo as nat, 2);
        lemma_digits_shape(d as nat, 2);
        lemma_digits_shape(h as nat, 2);
        lemma_digits_shape(mi as nat, 2);
        lemma_digits_shape(s as nat, 2);
        assert(out@ =~= iso_text_of_secs(secs as nat));
    }
    out
}

/// Parse a 15-byte `YYYYMMDDTHHMMSS` text back into nanoseconds since the
/// UNIX epoch; `None` when it does not have that shape, a field is out of
/// range, or the instant is before the epoch.
#[verifier::spinoff_prover]
pub fn parse_iso_basic(bytes: &[u8]) -> (r: Option<u64>)
    requires
        iso_secs(bytes@) matches Some(s) ==> s * 1_000_000_000 <= u64::MAX,
    ensures
        match iso_secs(bytes@) {
            None => r is None,
            Some(s) => r == Some((s * 1_000_000_000) as u64),
        },
{
    if bytes.len() != ISO_DATETIME_LEN || bytes[8] != 0x54 {
        return None;
    }
    let y = match read_u32(bytes, 0, 4) {
        Some(v) => v,
        None => return None,
    };
    let mo = match read_u32(bytes, 4, 6) {
        Some(v) => v,
        None => return None,
    };
    let d = match read_u32(bytes, 6, 8) {
        Some(v) => v,
        None => return None,
    };
    let h = match read_u32(bytes, 9, 11) {
        Some(v) => v,
        None => return None,
    };
    let mi = match read_u32(bytes, 11, 13) {
        Some(v) => v,
        None => return None,
    };
    let s = match read_u32(bytes, 13, 15) {
        Some(v) => v,
        None => return None,
    };
    proof {
        lemma_value_bound(bytes@.subrange(0, 4));
        assert(pow10(4) == 10000) by {
            reveal_with_fuel(pow10, 5);
        }
        lemma_value_bound(bytes@.subrange(4, 6));
        lemma_value_bound(bytes@.subrange(6, 8));
        lemma_value_bound(bytes@.subrange(9, 11));
        lemma_value_bound(bytes@.subrange(11, 13));
        lemma_value_bound(bytes@.subrange(13, 15));
        assert(pow10(2) == 100) by {
            reveal_with_fuel(pow10, 3);
        }
    }
    let secs = match ymdhms_to_unix_secs(y, mo, d, h, mi, s) {
        Some(v) => v,
        None => return None,
    };
    Some(secs * 1_000_000_000)
}

} // verus!
