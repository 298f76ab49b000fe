//! Calendar arithmetic: the civil date and time (proleptic Gregorian, UTC) of
//! a Unix timestamp, written as `YYYY-MM-DDTHH:MM:SS`.

use vstd::prelude::*;

use crate::num::{parse_u64, spec_decimal, spec_parse_u64, u64_to_decimal};
use crate::observability::{split_char, split_on};
use crate::text::{chars_of, find_char, index_of, string_from_range};
use crate::text::push_char;
use vstd::arithmetic::div_mod::lemma_fundamental_div_mod_converse;

verus! {

pub open spec fn is_leap(y: int) -> bool {
    (y % 4 == 0 && y % 100 != 0) || y % 400 == 0
}

pub open spec fn year_len(y: int) -> int {
    if is_leap(y) {
        366
    } else {
        365
    }
}

/// The number of days of month `m` (1 to 12) of year `y`.
pub open spec fn month_len(y: int, m: int) -> int {
    if m == 2 {
        if is_leap(y) {
            29
        } else {
            28
        }
    } else if m == 4 || m == 6 || m == 9 || m == 11 {
        30
    } else {
        31
    }
}

pub open spec fn valid_date(y: int, m: int, d: int) -> bool {
    1 <= m <= 12 && 1 <= d <= month_len(y, m)
}

/// The days of year `y` before the first of month `m`.
pub open spec fn days_before_month(y: int, m: int) -> int
    decreases m,
{
    if m <= 1 {
        0
    } else {
        days_before_month(y, m - 1) + month_len(y, m - 1)
    }
}

/// The days from 1970-01-01 to the first day of year `y` (negative before 1970).
pub open spec fn days_to_year(y: int) -> int
    decreases (if y >= 1970 { y - 1970 } else { 1970 - y }),
{
    if y == 1970 {
        0
    } else if y > 1970 {
        days_to_year(y - 1) + year_len(y - 1)
    } else {
        days_to_year(y + 1) - year_len(y)
    }
}

/// The day number of a date, counted from 1970-01-01.
pub open spec fn epoch_day(y: int, m: int, d: int) -> int {
    days_to_year(y) + days_before_month(y, m) + (d - 1)
}

/// The civil date `(year, month, day)` of day number `days`.
pub open spec fn civil_date(days: int) -> (int, int, int) {
    choose|y: int, m: int, d: int| valid_date(y, m, d) && epoch_day(y, m, d) == days
}

pub open spec fn zeros(k: int) -> Seq<char> {
    Seq::new(if k > 0 { k as nat } else { 0 }, |i: int| '0')
}

/// `n` in decimal, its sign first and then zeros up to `w` characters in all,
/// as Rust's `{:0w}` writes an integer.
pub open spec fn spec_zero_padded(n: int, w: int) -> Seq<char> {
    let sign: Seq<char> = if n < 0 { seq!['-'] } else { seq![] };
    let digits = spec_decimal((if n < 0 { -n } else { n }) as nat);
    sign + zeros(w - sign.len() - digits.len()) + digits
}

/// The text `YYYY-MM-DDTHH:MM:SS` of the Unix time `secs` (seconds since
/// 1970-01-01T00:00:00 UTC).
pub open spec fn utc_text(secs: int) -> Seq<char> {
    let days = secs / 86400;
    let t = secs % 86400;
    let date = civil_date(days);
    spec_zero_padded(date.0, 4) + seq!['-'] + spec_zero_padded(date.1, 2) + seq!['-']
        + spec_zero_padded(date.2, 2) + seq!['T'] + spec_zero_padded(t / 3600, 2) + seq![':']
        + spec_zero_padded(t % 3600 / 60, 2) + seq![':'] + spec_zero_padded(t % 60, 2)
}

/// The leap years among years `1..=p` (counted negatively below year 1).
spec fn leap_count(p: int) -> int {
    p / 4 - p / 100 + p / 400
}

spec fn leap01(y: int) -> int {
    if is_leap(y) {
        1
    } else {
        0
    }
}

/// The days from the first of March to the first of the `mp`-th month after it.
spec fn march_days(mp: int) -> int {
    (153 * mp + 2) / 5
}

proof fn lemma_div_step(p: int, k: int)
    requires
        k > 0,
    ensures
        p / k - (p - 1) / k == (if p % k == 0 { 1int } else { 0int }),
{
    let a = (p - 1) / k;
    let r = (p - 1) % k;
    vstd::arithmetic::div_mod::lemma_fundamental_div_mod(p - 1, k);
    vstd::arithmetic::div_mod::lemma_mod_bound(p - 1, k);
    assert(k * a == a * k) by (nonlinear_arith);
    if r == k - 1 {
        assert((a + 1) * k == a * k + k) by (nonlinear_arith);
        lemma_fundamental_div_mod_converse(p, k, a + 1, 0);
    } else {
        lemma_fundamental_div_mod_converse(p, k, a, r + 1);
    }
}

proof fn lemma_leap_count_step(p: int)
    ensures
        leap_count(p) - leap_count(p - 1) == leap01(p),
{
    lemma_div_step(p, 4);
    lemma_div_step(p, 100);
    lemma_div_step(p, 400);
    let a = p / 400;
    vstd::arithmetic::div_mod::lemma_fundamental_div_mod(p, 400);
    vstd::arithmetic::div_mod::lemma_fundamental_div_mod(p, 100);
    vstd::arithmetic::div_mod::lemma_fundamental_div_mod(p, 4);
    vstd::arithmetic::div_mod::lemma_mod_bound(p, 400);
    vstd::arithmetic::div_mod::lemma_mod_bound(p, 100);
    vstd::arithmetic::div_mod::lemma_mod_bound(p, 4);
    if p % 400 == 0 {
        lemma_fundamental_div_mod_converse(p, 100, 4 * a, 0);
        lemma_fundamental_div_mod_converse(p, 4, 100 * a, 0);
    }
    if p % 100 == 0 {
        lemma_fundamental_div_mod_converse(p, 4, 25 * (p / 100), 0);
    }
}

proof fn lemma_year_step(y: int)
    ensures
        days_to_year(y + 1) == days_to_year(y) + year_len(y),
{
}

proof fn lemma_days_to_year_closed(y: int)
    ensures
        days_to_year(y) == 365 * (y - 1970) + leap_count(y - 1) - 477,
    decreases (if y >= 1970 { y - 1970 } else { 1970 - y }),
{
    if y == 1970 {
        lemma_fundamental_div_mod_converse(1969, 4, 492, 1);
        lemma_fundamental_div_mod_converse(1969, 100, 19, 69);
        lemma_fundamental_div_mod_converse(1969, 400, 4, 369);
    } else if y > 1970 {
        lemma_days_to_year_closed(y - 1);
        lemma_leap_count_step(y - 1);
    } else {
        lemma_days_to_year_closed(y + 1);
        lemma_leap_count_step(y);
    }
}

/// The days of a common year before the first of month `m`.
spec fn common_month_start(m: int) -> int {
    if m == 1 { 0 }
    else if m == 2 { 31 }
    else if m == 3 { 59 }
    else if m == 4 { 90 }
    else if m == 5 { 120 }
    else if m == 6 { 151 }
    else if m == 7 { 181 }
    else if m == 8 { 212 }
    else if m == 9 { 243 }
    else if m == 10 { 273 }
    else if m == 11 { 304 }
    else { 334 }
}

proof fn lemma_days_before_month(y: int, m: int)
    requires
        1 <= m <= 13,
    ensures
        days_before_month(y, m) == (if m == 13 { 365 } else { common_month_start(m) }) + (if m > 2
            && is_leap(y) { 1int } else { 0int }),
{
    reveal_with_fuel(days_before_month, 13);
}

/// The day number of a date, counted the way the civil-date computation
/// counts it: in years that begin on the first of March.
proof fn lemma_epoch_day_march(y: int, m: int, d: int)
    requires
        1 <= m <= 12,
    ensures
        ({
            let y2 = if m <= 2 { y - 1 } else { y };
            let mp = if m > 2 { m - 3 } else { m + 9 };
            epoch_day(y, m, d) == 365 * y2 + leap_count(y2) + march_days(mp) + d - 1 - 719468
        }),
{
    lemma_days_before_month(y, m);
    lemma_days_to_year_closed(y);
    lemma_leap_count_step(y);
    if m > 2 {
        assert(march_days(m - 3) == common_month_start(m) - 59) by {
            if m == 3 {} else if m == 4 {} else if m == 5 {} else if m == 6 {}
            else if m == 7 {} else if m == 8 {} else if m == 9 {} else if m == 10 {}
            else if m == 11 {} else {}
        }
    } else {
        assert(march_days(m + 9) == common_month_start(m) + 306) by {
            if m == 1 {} else {}
        }
    }
}

/// Within a 400-year era that starts on the first of March of a year divisible
/// by 400, day `doe` of the era falls in year `yoe` of the era, on day `doy`
/// of that year (years taken from March to February).
proof fn lemma_year_of_era(doe: int)
    requires
        0 <= doe <= 146096,
    ensures
        ({
            let yoe = (doe - doe / 1460 + doe / 36524 - doe / 146096) / 365;
            let doy = doe - (365 * yoe + yoe / 4 - yoe / 100);
            &&& 0 <= yoe <= 399
            &&& 0 <= doy <= 364 + leap01(yoe + 1)
        }),
{
    if doe == 146096 {
        lemma_fundamental_div_mod_converse(doe, 1460, 100, 96);
        lemma_fundamental_div_mod_converse(doe, 36524, 4, 0);
        lemma_fundamental_div_mod_converse(doe, 146096, 1, 0);
        lemma_fundamental_div_mod_converse(145999, 365, 399, 364);
        lemma_fundamental_div_mod_converse(399, 4, 99, 3);
        lemma_fundamental_div_mod_converse(399, 100, 3, 99);
        lemma_fundamental_div_mod_converse(400, 4, 100, 0);
        lemma_fundamental_div_mod_converse(400, 400, 1, 0);
    } else {
        let c = doe / 36524;
        let r = doe % 36524;
        vstd::arithmetic::div_mod::lemma_fundamental_div_mod(doe, 36524);
        vstd::arithmetic::div_mod::lemma_mod_bound(doe, 36524);
        assert(0 <= c <= 3);
        let q = r / 1461;
        let s = r % 1461;
        vstd::arithmetic::div_mod::lemma_fundamental_div_mod(r, 1461);
        vstd::arithmetic::div_mod::lemma_mod_bound(r, 1461);
        assert(0 <= q <= 24);
        let e: int = if 24 * c + q + s >= 1460 { 1 } else { 0 };
        lemma_fundamental_div_mod_converse(doe, 1460, 25 * c + q + e, 24 * c + q + s - 1460 * e);
        lemma_fundamental_div_mod_converse(doe, 146096, 0, doe);
        let a = doe - doe / 1460 + doe / 36524 - doe / 146096;
        assert(a == 365 * (100 * c + 4 * q) + (s - e));
        assert(0 <= s - e <= 1459);
        let t = (s - e) / 365;
        vstd::arithmetic::div_mod::lemma_fundamental_div_mod(s - e, 365);
        vstd::arithmetic::div_mod::lemma_mod_bound(s - e, 365);
        assert(0 <= t <= 3);
        lemma_fundamental_div_mod_converse(a, 365, 100 * c + 4 * q + t, (s - e) % 365);
        let yoe = 100 * c + 4 * q + t;
        lemma_fundamental_div_mod_converse(yoe, 4, 25 * c + q, t);
        lemma_fundamental_div_mod_converse(yoe, 100, c, 4 * q + t);
        let doy = doe - (365 * yoe + yoe / 4 - yoe / 100);
        assert(doy == s - 365 * t);
        if e == 1 {
            assert(t == 3);
            if doy == 365 {
                assert(s == 1460);
                assert(q <= 23);
                lemma_fundamental_div_mod_converse(yoe + 1, 4, 25 * c + q + 1, 0);
                lemma_fundamental_div_mod_converse(yoe + 1, 100, c, 4 * q + 4);
                assert(is_leap(yoe + 1));
            }
        }
    }
}

proof fn lemma_era_shift(x: int, k: int)
    ensures
        leap_count(x + 400 * k) == leap_count(x) + 97 * k,
        is_leap(x + 400 * k) == is_leap(x),
{
    vstd::arithmetic::div_mod::lemma_fundamental_div_mod(x, 4);
    vstd::arithmetic::div_mod::lemma_fundamental_div_mod(x, 100);
    vstd::arithmetic::div_mod::lemma_fundamental_div_mod(x, 400);
    vstd::arithmetic::div_mod::lemma_mod_bound(x, 4);
    vstd::arithmetic::div_mod::lemma_mod_bound(x, 100);
    vstd::arithmetic::div_mod::lemma_mod_bound(x, 400);
    lemma_fundamental_div_mod_converse(x + 400 * k, 4, x / 4 + 100 * k, x % 4);
    lemma_fundamental_div_mod_converse(x + 400 * k, 100, x / 100 + 4 * k, x % 100);
    lemma_fundamental_div_mod_converse(x + 400 * k, 400, x / 400 + k, x % 400);
}

/// The civil date of day number `days`, computed in 400-year eras of
/// 146097 days counted from 0000-03-01.
spec fn era_date(days: int) -> (int, int, int) {
    let z = days + 719468;
    let era = z / 146097;
    let doe = z % 146097;
    let yoe = (doe - doe / 1460 + doe / 36524 - doe / 146096) / 365;
    let y = yoe + era * 400;
    let doy = doe - (365 * yoe + yoe / 4 - yoe / 100);
    let mp = (5 * doy + 2) / 153;
    let d = doy - (153 * mp + 2) / 5 + 1;
    let month = if mp < 10 { mp + 3 } else { mp - 9 };
    let year = if month <= 2 { y + 1 } else { y };
    (year, month, d)
}

proof fn lemma_era_date(days: int)
    ensures
        valid_date(era_date(days).0, era_date(days).1, era_date(days).2),
        epoch_day(era_date(days).0, era_date(days).1, era_date(days).2) == days,
{
    let z = days + 719468;
    let era = z / 146097;
    let doe = z % 146097;
    vstd::arithmetic::div_mod::lemma_fundamental_div_mod(z, 146097);
    vstd::arithmetic::div_mod::lemma_mod_bound(z, 146097);
    lemma_year_of_era(doe);
    let yoe = (doe - doe / 1460 + doe / 36524 - doe / 146096) / 365;
    let y = yoe + era * 400;
    let doy = doe - (365 * yoe + yoe / 4 - yoe / 100);
    let mp = (5 * doy + 2) / 153;
    vstd::arithmetic::div_mod::lemma_fundamental_div_mod(5 * doy + 2, 153);
    vstd::arithmetic::div_mod::lemma_mod_bound(5 * doy + 2, 153);
    assert(0 <= mp <= 11);
    let d = doy - (153 * mp + 2) / 5 + 1;
    let month = if mp < 10 { mp + 3 } else { mp - 9 };
    let year = if month <= 2 { y + 1 } else { y };
    assert(era_date(days) == (year, month, d));
    lemma_era_shift(yoe + 1, era);
    assert(is_leap(y + 1) == is_leap(yoe + 1));
    assert(1 <= d <= month_len(year, month)) by {
        if mp == 0 {} else if mp == 1 {} else if mp == 2 {} else if mp == 3 {}
        else if mp == 4 {} else if mp == 5 {} else if mp == 6 {} else if mp == 7 {}
        else if mp == 8 {} else if mp == 9 {} else if mp == 10 {} else {}
    }
    lemma_epoch_day_march(year, month, d);
    lemma_era_shift(yoe, era);
    lemma_fundamental_div_mod_converse(yoe, 400, 0, yoe);
}

proof fn lemma_year_monotone(a: int, b: int)
    requires
        a < b,
    ensures
        days_to_year(a) + year_len(a) <= days_to_year(b),
    decreases b - a,
{
    lemma_year_step(a);
    if a + 1 < b {
        lemma_year_monotone(a + 1, b);
        lemma_year_step(a + 1);
    }
}

proof fn lemma_month_monotone(y: int, a: int, b: int)
    requires
        a <= b,
    ensures
        days_before_month(y, a) <= days_before_month(y, b),
    decreases b - a,
{
    if a < b {
        lemma_month_monotone(y, a, b - 1);
    }
}

proof fn lemma_within_year(y: int, m: int, d: int)
    requires
        valid_date(y, m, d),
    ensures
        days_to_year(y) + days_before_month(y, m) <= epoch_day(y, m, d) < days_to_year(y)
            + days_before_month(y, m + 1),
        days_before_month(y, m + 1) <= year_len(y),
        0 <= days_before_month(y, m),
{
    lemma_month_monotone(y, 1, m);
    lemma_days_before_month(y, m + 1);
    lemma_month_monotone(y, m + 1, 13);
    lemma_days_before_month(y, 13);
}

/// Two valid dates with the same day number are the same date.
pub proof fn lemma_epoch_day_injective(y1: int, m1: int, d1: int, y2: int, m2: int, d2: int)
    requires
        valid_date(y1, m1, d1),
        valid_date(y2, m2, d2),
        epoch_day(y1, m1, d1) == epoch_day(y2, m2, d2),
    ensures
        y1 == y2,
        m1 == m2,
        d1 == d2,
{
    lemma_within_year(y1, m1, d1);
    lemma_within_year(y2, m2, d2);
    if y1 < y2 {
        lemma_year_monotone(y1, y2);
    } else if y2 < y1 {
        lemma_year_monotone(y2, y1);
    } else {
        if m1 < m2 {
            lemma_month_monotone(y1, m1 + 1, m2);
        } else if m2 < m1 {
            lemma_month_monotone(y1, m2 + 1, m1);
        }
    }
}

/// Every day number has a civil date: a valid date with that number.
pub proof fn lemma_civil_date(days: int)
    ensures
        valid_date(civil_date(days).0, civil_date(days).1, civil_date(days).2),
        epoch_day(civil_date(days).0, civil_date(days).1, civil_date(days).2) == days,
{
    lemma_civil_is_era(days);
    lemma_era_date(days);
}

proof fn lemma_civil_is_era(days: int)
    ensures
        civil_date(days) == era_date(days),
{
    lemma_era_date(days);
    let w = era_date(days);
    assert(valid_date(w.0, w.1, w.2) && epoch_day(w.0, w.1, w.2) == days);
    let c = civil_date(days);
    lemma_epoch_day_injective(c.0, c.1, c.2, w.0, w.1, w.2);
}

/// Appends `n` written as Rust's `{:0w}` writes an integer.
fn push_zero_padded(out: &mut String, n: i64, w: usize)
    ensures
        final(out)@ == old(out)@ + spec_zero_padded(n as int, w as int),
{
    let mag: u64 = if n < 0 {
        if n == i64::MIN {
            0x8000_0000_0000_0000u64
        } else {
            (-n) as u64
        }
    } else {
        n as u64
    };
    let digits = u64_to_decimal(mag);
    let len = digits.as_str().unicode_len();
    let sign: usize = if n < 0 { 1 } else { 0 };
    let pad: usize = if w >= len && w - len >= sign { w - len - sign } else { 0 };
    let ghost start = out@;
    let ghost sign_text: Seq<char> = if n < 0 { seq!['-'] } else { seq![] };
    if n < 0 {
        push_char(out, '-');
    }
    assert(out@ == start + sign_text);
    let mut i: usize = 0;
    while i < pad
        invariant
            i <= pad,
            out@ == start + sign_text + zeros(i as int),
        decreases pad - i,
    {
        push_char(out, '0');
        i = i + 1;
        assert(out@ =~= start + sign_text + zeros(i as int));
    }
    out.append(digits.as_str());
    proof {
        assert(zeros(pad as int) =~= zeros(w - sign_text.len() - digits@.len()));
        assert(out@ =~= start + spec_zero_padded(n as int, w as int));
    }
}

/// The civil date of day number `days`, computed in 400-year eras of
/// 146097 days counted from 0000-03-01.
#[verifier::spinoff_prover]
fn civil_parts(days: i64) -> (r: (i64, u64, u64))
    requires
        -200_000_000_000_000 <= days <= 200_000_000_000_000,
    ensures
        civil_date(days as int) == (r.0 as int, r.1 as int, r.2 as int),
        1 <= r.1 <= 12,
        1 <= r.2 <= 31,
{
    let z: i64 = days + 719468;
    let era: i64 = match z.checked_div_euclid(146097) {
        Some(v) => v,
        None => 0,
    };
    let doe_i: i64 = match z.checked_rem_euclid(146097) {
        Some(v) => v,
        None => 0,
    };
    proof {
        vstd::arithmetic::div_mod::lemma_fundamental_div_mod(z as int, 146097);
        vstd::arithmetic::div_mod::lemma_mod_bound(z as int, 146097);
        lemma_year_of_era(doe_i as int);
    }
    let doe = doe_i as u64;
    let yoe = (doe - doe / 1460 + doe / 36524 - doe / 146096) / 365;
    let y: i64 = yoe as i64 + era * 400;
    let doy = doe - (365 * yoe + yoe / 4 - yoe / 100);
    let mp = (5 * doy + 2) / 153;
    let d = doy - (153 * mp + 2) / 5 + 1;
    let month = if mp < 10 { mp + 3 } else { mp - 9 };
    let year: i64 = if month <= 2 { y + 1 } else { y };
    proof {
        lemma_civil_is_era(days as int);
        lemma_civil_date(days as int);
        assert(era_date(days as int) == (year as int, month as int, d as int));
    }
    (year, month, d)
}

/// The text `YYYY-MM-DDTHH:MM:SS` of the Unix time `secs`, in UTC.
#[verifier::spinoff_prover]
pub fn chrono_format_utc(secs: i64) -> (r: String)
    ensures
        r@ == utc_text(secs as int),
{
    let days: i64 = match secs.checked_div_euclid(86400) {
        Some(v) => v,
        None => 0,
    };
    let day_secs: i64 = match secs.checked_rem_euclid(86400) {
        Some(v) => v,
        None => 0,
    };
    proof {
        vstd::arithmetic::div_mod::lemma_fundamental_div_mod(secs as int, 86400);
        vstd::arithmetic::div_mod::lemma_mod_bound(secs as int, 86400);
    }
    assert(days == secs as int / 86400 && day_secs == secs as int % 86400);
    assert(-200_000_000_000_000 <= days <= 200_000_000_000_000);
    let ds = day_secs as u64;
    let h = ds / 3600;
    let mi = (ds % 3600) / 60;
    let sc = ds % 60;
    let (year, month, d) = civil_parts(days);
    let mut r = String::new();
    push_zero_padded(&mut r, year, 4);
    push_char(&mut r, '-');
    push_zero_padded(&mut r, month as i64, 2);
    push_char(&mut r, '-');
    push_zero_padded(&mut r, d as i64, 2);
    push_char(&mut r, 'T');
    push_zero_padded(&mut r, h as i64, 2);
    push_char(&mut r, ':');
    push_zero_padded(&mut r, mi as i64, 2);
    push_char(&mut r, ':');
    push_zero_padded(&mut r, sc as i64, 2);
    proof {
        assert(r@ =~= utc_text(secs as int));
    }
    r
}

/// `u32::from_str`.
pub open spec fn spec_parse_u32(s: Seq<char>) -> Option<int> {
    match spec_parse_u64(s) {
        Some(v) => if v <= u32::MAX {
            Some(v)
        } else {
            None
        },
        None => None,
    }
}

/// The numbers among `parts`, in order; parts that are not a `u32` are
/// skipped.
pub open spec fn parsed_numbers(parts: Seq<Seq<char>>) -> Seq<int>
    decreases parts.len(),
{
    if parts.len() == 0 {
        Seq::empty()
    } else {
        let p = parsed_numbers(parts.drop_last());
        match spec_parse_u32(parts.last()) {
            Some(v) => p.push(v),
            None => p,
        }
    }
}

/// The date numbers (split at `-`) and time numbers (split at `:`) of a
/// `date time` text, cut at its first space.
pub open spec fn timestamp_fields(s: Seq<char>) -> Option<(Seq<int>, Seq<int>)> {
    match index_of(s, ' ') {
        None => None,
        Some(i) => Some(
            (
                parsed_numbers(split_on(s.subrange(0, i), '-')),
                parsed_numbers(split_on(s.subrange(i + 1, s.len() as int), ':')),
            ),
        ),
    }
}

/// A timestamp of three date and three time numbers with a month above 13,
/// on which the reading indexes past its month table.
pub open spec fn timestamp_out_of_table(s: Seq<char>) -> bool {
    timestamp_fields(s) matches Some((d, t)) && d.len() == 3 && t.len() == 3 && d[1] >= 14
}

/// The Unix time of a `YYYY-MM-DD HH:MM:SS` text read as UTC, counting the
/// days of the years from 1970 up to the year (none before 1970), of the
/// months before the month, and of the day; `None` for another shape or a
/// time before 1970.
pub open spec fn timestamp_epoch(s: Seq<char>) -> Option<int> {
    match timestamp_fields(s) {
        Some((d, t)) => if d.len() == 3 && t.len() == 3 {
            let days = (if d[0] >= 1970 { days_to_year(d[0]) } else { 0 }) + days_before_month(d[0], d[1]) + d[2] - 1;
            let secs = days * 86400 + t[0] * 3600 + t[1] * 60 + t[2];
            if secs >= 0 {
                Some(secs)
            } else {
                None
            }
        } else {
            None
        },
        None => None,
    }
}

/// An `auth_time` as stored: a Unix time in decimal, or a timestamp.
pub open spec fn spec_auth_time(s: Seq<char>) -> Option<int> {
    match spec_parse_u64(s) {
        Some(v) => Some(v),
        None => timestamp_epoch(s),
    }
}

fn parse_u32(s: &str) -> (r: Option<u32>)
    ensures
        match r {
            Some(v) => spec_parse_u32(s@) == Some(v as int),
            None => spec_parse_u32(s@) is None,
        },
{
    match parse_u64(s) {
        Some(v) => if v <= 0xffff_ffffu64 {
            Some(v as u32)
        } else {
            None
        },
        None => None,
    }
}

fn numbers_of(parts: &Vec<String>) -> (r: Vec<u32>)
    ensures
        r@.len() == parsed_numbers(parts@.map_values(|p: String| p@)).len(),
        forall|i: int| 0 <= i < r@.len() ==> r@[i] as int == parsed_numbers(parts@.map_values(|p: String| p@))[i],
{
    let ghost pv = parts@.map_values(|p: String| p@);
    let mut out: Vec<u32> = Vec::new();
    let mut i: usize = 0;
    assert(pv.subrange(0, 0) =~= Seq::<Seq<char>>::empty());
    while i < parts.len()
        invariant
            i <= parts@.len(),
            pv == parts@.map_values(|p: String| p@),
            out@.len() == parsed_numbers(pv.subrange(0, i as int)).len(),
            forall|k: int| 0 <= k < out@.len() ==> out@[k] as int == parsed_numbers(pv.subrange(0, i as int))[k],
        decreases parts.len() - i,
    {
        let ghost before = out@;
        assert(pv.subrange(0, i + 1).drop_last() =~= pv.subrange(0, i as int));
        assert(pv.subrange(0, i + 1).last() == parts@[i as int]@);
        match parse_u32(parts[i].as_str()) {
            Some(v) => {
                out.push(v);
                assert forall|k: int| 0 <= k < out@.len() implies out@[k] as int == parsed_numbers(
                    pv.subrange(0, i + 1),
                )[k] by {
                    if k < before.len() {
                        assert(out@[k] == before[k]);
                    }
                }
            },
            None => {},
        }
        i = i + 1;
    }
    assert(pv.subrange(0, parts@.len() as int) =~= pv);
    out
}

fn strings_view_split(s: &str, sep: char) -> (r: Vec<String>)
    ensures
        r@.map_values(|p: String| p@) == split_on(s@, sep),
{
    let r = split_char(s, sep);
    assert(r@.map_values(|p: String| p@) =~= split_on(s@, sep));
    r
}

/// The Unix time of a stored `auth_time`: a decimal Unix time, or a
/// `YYYY-MM-DD HH:MM:SS` timestamp read as UTC.
pub fn parse_auth_time(s: &str) -> (r: Option<u64>)
    requires
        !(spec_parse_u64(s@) is None && timestamp_out_of_table(s@)),
    ensures
        match r {
            Some(v) => spec_auth_time(s@) == Some(v as int),
            None => spec_auth_time(s@) is None,
        },
{
    if let Some(epoch) = parse_u64(s) {
        return Some(epoch);
    }
    let v = chars_of(s);
    let vs = v.as_slice();
    let n = v.len();
    let i = match find_char(vs, ' ') {
        Some(i) => i,
        None => {
            return None;
        },
    };
    let date_text = string_from_range(vs, 0, i);
    let time_text = string_from_range(vs, i + 1, n);
    let d = numbers_of(&strings_view_split(date_text.as_str(), '-'));
    let t = numbers_of(&strings_view_split(time_text.as_str(), ':'));
    if d.len() != 3 || t.len() != 3 {
        return None;
    }
    let year = d[0];
    let month = d[1];
    let day = d[2];
    let mut days: i64 = 0;
    let mut y: u32 = 1970;
    while y < year
        invariant
            1970 <= y,
            y <= year || year < 1970,
            year < 1970 ==> y == 1970,
            days == days_to_year(y as int),
            0 <= days <= 366 * (y - 1970),
        decreases year - y,
    {
        proof {
            lemma_year_step(y as int);
        }
        days = days + if y % 4 == 0 && (y % 100 != 0 || y % 400 == 0) {
            366
        } else {
            365
        };
        y = y + 1;
    }
    assert(days == if year >= 1970 { days_to_year(year as int) } else { 0 });
    let mut m: u32 = 1;
    let mut md: i64 = 0;
    let leap = year % 4 == 0 && (year % 100 != 0 || year % 400 == 0);
    while m < month
        invariant
            1 <= m,
            m <= month || month < 1,
            month < 1 ==> m == 1,
            month <= 13,
            md == days_before_month(year as int, m as int),
            0 <= md <= 31 * (m - 1),
            leap == is_leap(year as int),
        decreases month - m,
    {
        md = md + if m == 2 {
            if leap { 29 } else { 28 }
        } else if m == 4 || m == 6 || m == 9 || m == 11 {
            30
        } else {
            31
        };
        m = m + 1;
    }
    proof {
        if month < 1 {
            assert(days_before_month(year as int, month as int) == 0);
        }
    }
    let total: i64 = days + md + (day as i64) - 1;
    let secs: i64 = total * 86400 + (t[0] as i64) * 3600 + (t[1] as i64) * 60 + (t[2] as i64);
    if secs >= 0 {
        Some(secs as u64)
    } else {
        None
    }
}

} // verus!
