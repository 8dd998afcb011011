//! Timestamps: a clock reading, in seconds since the Unix epoch, shifted
//! by the local UTC offset and written as an ISO 8601 local time,
//! `YYYY-MM-DDTHH:MM:SS`, in the proleptic Gregorian calendar.

use vstd::prelude::*;
use crate::text::{chars_of, decimal, decimal_string, push_text, string_of};

verus! {

broadcast use vstd::string::group_string_axioms;

// ---------------------------------------------------------------------------
// The calendar
// ---------------------------------------------------------------------------

/// A leap year: divisible by 4, except centuries not divisible by 400.
pub open spec fn is_leap(y: int) -> bool {
    (y % 4 == 0 && y % 100 != 0) || y % 400 == 0
}

/// The days of year `y`.
pub open spec fn days_in_year(y: int) -> int {
    if is_leap(y) {
        366
    } else {
        365
    }
}

/// The days of the years before year `y >= 1`, from year 1 on: 365 each,
/// plus one for each leap year among them.
pub open spec fn days_before_year(y: int) -> int {
    let p = y - 1;
    365 * p + p / 4 - p / 100 + p / 400
}

/// The days of month `m` (1 to 12) of year `y`.
pub open spec fn days_in_month(y: int, m: int) -> int {
    if m == 2 {
        if is_leap(y) {
            29
        } else {
            28
        }
    } else if m == 4 || m == 6 || m == 9 || m == 11 {
        30
    } else {
        31
    }
}

/// The days of the months before month `m` of year `y`.
pub open spec fn days_before_month(y: int, m: int) -> int
    decreases m,
{
    if m <= 1 {
        0
    } else {
        days_before_month(y, m - 1) + days_in_month(y, m - 1)
    }
}

/// A date and time of day that exist.
pub open spec fn valid_civil(y: int, m: int, d: int, h: int, mi: int, s: int) -> bool {
    &&& y >= 1
    &&& 1 <= m <= 12
    &&& 1 <= d <= days_in_month(y, m)
    &&& 0 <= h < 24
    &&& 0 <= mi < 60
    &&& 0 <= s < 60
}

/// The seconds from the start of year 1 to the given date and time.
pub open spec fn civil_seconds(y: int, m: int, d: int, h: int, mi: int, s: int) -> int {
    (days_before_year(y) + days_before_month(y, m) + d - 1) * 86400 + h * 3600 + mi * 60 + s
}

/// The seconds from the start of year 1 to the Unix epoch, 1970-01-01.
pub open spec fn epoch_seconds() -> int {
    days_before_year(1970) * 86400
}

/// A year's days are those of the years before it plus its own.
pub proof fn lemma_next_year(y: int)
    requires
        y >= 1,
    ensures
        days_before_year(y + 1) == days_before_year(y) + days_in_year(y),
{
    let p = y - 1;
    assert((p + 1) / 4 == p / 4 + if (p + 1) % 4 == 0 { 1int } else { 0int });
    assert((p + 1) / 100 == p / 100 + if (p + 1) % 100 == 0 { 1int } else { 0int });
    assert((p + 1) / 400 == p / 400 + if (p + 1) % 400 == 0 { 1int } else { 0int });
}

/// Years have between 365 and 366 days on average.
proof fn lemma_year_bounds(y: int)
    requires
        y >= 1,
    ensures
        365 * (y - 1) <= days_before_year(y) <= 366 * (y - 1),
{
    let p = y - 1;
    assert(p / 100 <= p / 4);
    assert(p / 4 <= p);
}

/// The months of a year add up to the year.
proof fn lemma_months_fill_year(y: int)
    ensures
        days_before_month(y, 13) == days_in_year(y),
        forall|m: int| 1 <= m <= 12 ==> days_before_month(y, m) + days_in_month(y, m)
            == #[trigger] days_before_month(y, m + 1),
{
    reveal_with_fuel(days_before_month, 13);
}

/// A date is before the next one of the same year.
proof fn lemma_month_monotone(y: int, m: int, k: int)
    requires
        1 <= m <= k <= 13,
    ensures
        days_before_month(y, m) <= days_before_month(y, k),
    decreases k - m,
{
    if m < k {
        lemma_month_monotone(y, m, k - 1);
        assert(days_before_month(y, k) == days_before_month(y, k - 1) + days_in_month(y, k - 1));
    }
}

/// Later years start later, by at least 365 days a year.
proof fn lemma_year_monotone(a: int, b: int)
    requires
        1 <= a <= b,
    ensures
        days_before_year(a) + 365 * (b - a) <= days_before_year(b),
    decreases b - a,
{
    if a < b {
        lemma_year_monotone(a, b - 1);
        lemma_next_year(b - 1);
    }
}

/// A date and a time of day are named by one number of seconds only: two
/// valid dates and times with the same seconds are the same.
pub proof fn lemma_civil_unique(
    y1: int,
    m1: int,
    d1: int,
    h1: int,
    mi1: int,
    s1: int,
    y2: int,
    m2: int,
    d2: int,
    h2: int,
    mi2: int,
    s2: int,
)
    requires
        valid_civil(y1, m1, d1, h1, mi1, s1),
        valid_civil(y2, m2, d2, h2, mi2, s2),
        civil_seconds(y1, m1, d1, h1, mi1, s1) == civil_seconds(y2, m2, d2, h2, mi2, s2),
    ensures
        y1 == y2 && m1 == m2 && d1 == d2 && h1 == h2 && mi1 == mi2 && s1 == s2,
{
    let t1 = h1 * 3600 + mi1 * 60 + s1;
    let t2 = h2 * 3600 + mi2 * 60 + s2;
    let e1 = days_before_year(y1) + days_before_month(y1, m1) + d1 - 1;
    let e2 = days_before_year(y2) + days_before_month(y2, m2) + d2 - 1;
    assert(0 <= t1 < 86400 && 0 <= t2 < 86400);
    assert(e1 * 86400 + t1 == e2 * 86400 + t2);
    assert(e1 == e2 && t1 == t2) by (nonlinear_arith)
        requires
            e1 * 86400 + t1 == e2 * 86400 + t2,
            0 <= t1 < 86400,
            0 <= t2 < 86400,
    ;
    assert(h1 == h2 && mi1 == mi2 && s1 == s2) by (nonlinear_arith)
        requires
            h1 * 3600 + mi1 * 60 + s1 == h2 * 3600 + mi2 * 60 + s2,
            0 <= mi1 < 60,
            0 <= s1 < 60,
            0 <= mi2 < 60,
            0 <= s2 < 60,
            0 <= h1,
            0 <= h2,
    ;
    // The day within its year lies before the year's end.
    lemma_months_fill_year(y1);
    lemma_months_fill_year(y2);
    lemma_month_monotone(y1, m1 + 1, 13);
    lemma_month_monotone(y2, m2 + 1, 13);
    lemma_next_year(y1);
    lemma_next_year(y2);
    lemma_month_monotone(y1, 1, m1);
    lemma_month_monotone(y2, 1, m2);
    assert(days_before_month(y1, m1) + days_in_month(y1, m1) == days_before_month(y1, m1 + 1));
    assert(days_before_month(y2, m2) + days_in_month(y2, m2) == days_before_month(y2, m2 + 1));
    assert(days_before_year(y1) <= e1 < days_before_year(y1 + 1));
    assert(days_before_year(y2) <= e2 < days_before_year(y2 + 1));
    if y1 < y2 {
        lemma_year_monotone(y1 + 1, y2);
    } else if y2 < y1 {
        lemma_year_monotone(y2 + 1, y1);
    }
    assert(y1 == y2);
    assert(days_before_month(y1, m1) + d1 == days_before_month(y2, m2) + d2);
    if m1 < m2 {
        lemma_month_monotone(y1, m1 + 1, m2);
    } else if m2 < m1 {
        lemma_month_monotone(y1, m2 + 1, m1);
    }
    assert(m1 == m2);
}

// ---------------------------------------------------------------------------
// From seconds to the calendar
// ---------------------------------------------------------------------------

/// `days_before_year(y)`, computed.
fn days_before_year_exec(y: u64) -> (r: u64)
    requires
        1 <= y <= 1_000_000_000_000_000,
    ensures
        r == days_before_year(y as int),
{
    let p = y - 1;
    proof {
        assert(p / 100 <= p / 4);
    }
    365 * p + p / 4 - p / 100 + p / 400
}

/// `days_in_month(y, m)`, computed.
fn days_in_month_exec(y: u64, m: u8) -> (r: u64)
    ensures
        r == days_in_month(y as int, m as int),
{
    if m == 2 {
        if (y % 4 == 0 && y % 100 != 0) || y % 400 == 0 {
            29
        } else {
            28
        }
    } else if m == 4 || m == 6 || m == 9 || m == 11 {
        30
    } else {
        31
    }
}

/// The date and time of day that lie `total` seconds after the start of
/// year 1.
pub fn civil_from_seconds(total: u128) -> (r: (u64, u8, u8, u8, u8, u8))
    requires
        total < 0x2_0000_0000_0000_0000,
    ensures
        valid_civil(r.0 as int, r.1 as int, r.2 as int, r.3 as int, r.4 as int, r.5 as int),
        civil_seconds(r.0 as int, r.1 as int, r.2 as int, r.3 as int, r.4 as int, r.5 as int)
            == total,
{
    let d: u64 = (total / 86400) as u64;
    let rem: u64 = (total % 86400) as u64;
    let h: u8 = (rem / 3600) as u8;
    let mi: u8 = ((rem % 3600) / 60) as u8;
    let s: u8 = (rem % 60) as u8;
    proof {
        assert(d <= 500_000_000_000_000);
        assert(rem == h * 3600 + mi * 60 + s);
        assert(total == d * 86400 + rem);
    }
    // The year: an estimate from the average year, then corrected.
    let mut y: u64 = d * 400 / 146097 + 1;
    proof {
        assert(y <= d + 1);
    }
    while days_before_year_exec(y) > d
        invariant
            1 <= y <= d + 1,
            d <= 500_000_000_000_000,
        decreases y,
    {
        proof {
            if y == 1 {
                assert(days_before_year(1) == 0);
            }
        }
        y = y - 1;
    }
    proof {
        lemma_year_bounds(y as int);
    }
    while days_before_year_exec(y + 1) <= d
        invariant
            1 <= y,
            days_before_year(y as int) <= d,
            d <= 500_000_000_000_000,
            365 * (y - 1) <= d,
        decreases d - days_before_year(y as int),
    {
        proof {
            lemma_next_year(y as int);
            lemma_year_bounds(y as int + 1);
        }
        y = y + 1;
    }
    proof {
        lemma_next_year(y as int);
        lemma_months_fill_year(y as int);
    }
    let doy: u64 = d - days_before_year_exec(y);
    // The month and the day within it.
    let mut m: u8 = 1;
    let mut rest: u64 = doy;
    while rest >= days_in_month_exec(y, m)
        invariant
            1 <= m <= 12,
            rest as int + days_before_month(y as int, m as int) == doy,
            doy < days_in_year(y as int),
            days_before_month(y as int, 13) == days_in_year(y as int),
            forall|k: int| 1 <= k <= 12 ==> days_before_month(y as int, k) + days_in_month(y as int, k)
                == #[trigger] days_before_month(y as int, k + 1),
        decreases 12 - m,
    {
        proof {
            if m == 12 {
                assert(days_before_month(y as int, 13) == days_before_month(y as int, 12)
                    + days_in_month(y as int, 12));
            } else {
                lemma_month_monotone(y as int, m as int + 1, 13);
            }
        }
        rest = rest - days_in_month_exec(y, m);
        m = m + 1;
    }
    let day: u8 = (rest + 1) as u8;
    (y, m, day, h, mi, s)
}

// ---------------------------------------------------------------------------
// Writing it down
// ---------------------------------------------------------------------------

/// `n` in decimal, with leading zeros up to `width` digits.
pub open spec fn padded(n: nat, width: nat) -> Seq<char> {
    let digits = decimal(n);
    if digits.len() < width {
        Seq::new((width - digits.len()) as nat, |i: int| '0') + digits
    } else {
        digits
    }
}

/// `YYYY-MM-DD`.
pub open spec fn date_text(y: int, m: int, d: int) -> Seq<char> {
    padded(y as nat, 4) + "-"@ + padded(m as nat, 2) + "-"@ + padded(d as nat, 2)
}

/// `YYYY-MM-DDTHH:MM:SS`.
pub open spec fn iso_text(y: int, m: int, d: int, h: int, mi: int, s: int) -> Seq<char> {
    date_text(y, m, d) + "T"@ + padded(h as nat, 2) + ":"@ + padded(mi as nat, 2) + ":"@ + padded(
        s as nat,
        2,
    )
}

/// Appends `n` with leading zeros up to `width` digits.
fn push_padded(out: &mut Vec<char>, n: u64, width: usize)
    ensures
        final(out)@ == old(out)@ + padded(n as nat, width as nat),
{
    let digits = chars_of(decimal_string(n).as_str());
    let ghost o0 = out@;
    if digits.len() < width {
        let mut k: usize = 0;
        let z = (width - digits.len()) as usize;
        while k < z
            invariant
                k <= z,
                z == width - digits@.len(),
                out@ == o0 + Seq::new(k as nat, |i: int| '0'),
            decreases z - k,
        {
            out.push('0');
            k = k + 1;
            proof {
                assert(out@ =~= o0 + Seq::new(k as nat, |i: int| '0'));
            }
        }
    }
    let ghost before = out@;
    let mut j: usize = 0;
    while j < digits.len()
        invariant
            j <= digits.len(),
            out@ == before + digits@.take(j as int),
        decreases digits.len() - j,
    {
        out.push(digits[j]);
        j = j + 1;
        proof {
            assert(out@ =~= before + digits@.take(j as int));
        }
    }
    proof {
        assert(digits@.take(digits.len() as int) =~= digits@);
        assert(digits@ == decimal(n as nat));
        if digits@.len() < width {
            assert(out@ =~= o0 + padded(n as nat, width as nat));
        } else {
            assert(out@ =~= o0 + padded(n as nat, width as nat));
        }
    }
}

/// The local time `secs` seconds after the epoch (`0` when the clock reads
/// earlier than the epoch), shifted by the UTC offset in seconds.
pub open spec fn local_seconds(secs: Option<u64>, utc_offset_secs: i32) -> int {
    epoch_seconds() + match secs {
        Some(t) => t as int,
        None => 0,
    } + utc_offset_secs
}

/// The total seconds of a local time, computed.
fn local_total(secs: Option<u64>, utc_offset_secs: i32) -> (t: u128)
    requires
        -86400 < utc_offset_secs < 86400,
    ensures
        t == local_seconds(secs, utc_offset_secs),
        t < 0x2_0000_0000_0000_0000,
{
    let s: u64 = match secs {
        Some(t) => t,
        None => 0,
    };
    proof {
        assert(days_before_year(1970) == 719162);
    }
    let base: u128 = 62135596800u128 + s as u128;
    if utc_offset_secs >= 0 {
        base + utc_offset_secs as u128
    } else {
        base - (-(utc_offset_secs as i64)) as u128
    }
}

/// A timestamp: the clock reading as local time, `YYYY-MM-DDTHH:MM:SS`
/// (ISO 8601).
pub fn now(secs_since_epoch: Option<u64>, utc_offset_secs: i32) -> (r: String)
    requires
        -86400 < utc_offset_secs < 86400,
    ensures
        exists|y: int, m: int, d: int, h: int, mi: int, s: int|
            {
                &&& valid_civil(y, m, d, h, mi, s)
                &&& #[trigger] civil_seconds(y, m, d, h, mi, s) == local_seconds(
                    secs_since_epoch,
                    utc_offset_secs,
                )
                &&& r@ == iso_text(y, m, d, h, mi, s)
            },
{
    let t = local_total(secs_since_epoch, utc_offset_secs);
    let (y, m, d, h, mi, s) = civil_from_seconds(t);
    let mut v: Vec<char> = Vec::new();
    push_padded(&mut v, y, 4);
    push_text(&mut v, "-");
    push_padded(&mut v, m as u64, 2);
    push_text(&mut v, "-");
    push_padded(&mut v, d as u64, 2);
    push_text(&mut v, "T");
    push_padded(&mut v, h as u64, 2);
    push_text(&mut v, ":");
    push_padded(&mut v, mi as u64, 2);
    push_text(&mut v, ":");
    push_padded(&mut v, s as u64, 2);
    let r = string_of(&v);
    proof {
        assert(r@ =~= iso_text(y as int, m as int, d as int, h as int, mi as int, s as int));
    }
    r
}

} // verus!
