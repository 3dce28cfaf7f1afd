//! Gregorian calendar arithmetic.
//!
//! The monthly dataset is partitioned by calendar year and month, so the
//! partition resolver must map a unix-epoch timestamp to the `(year, month)`
//! pair whose days contain it.  The spec functions here state the calendar
//! directly (leap years, month lengths, days elapsed before a year or month),
//! and `get_year_and_month` is proved to return the unique pair whose day
//! range contains the timestamp's day, for any timestamp, before or after
//! the epoch.

use vstd::prelude::*;
use vstd::arithmetic::div_mod::lemma_mod_multiples_vanish;

verus! {

/// A year has an extra leap day exactly when it is divisible by 4, except
/// century years, which must be divisible by 400.
pub open spec fn is_leap_year(y: int) -> bool {
    y % 4 == 0 && (y % 100 != 0 || y % 400 == 0)
}

/// Number of days in year `y`.
pub open spec fn days_in_year(y: int) -> int {
    if is_leap_year(y) {
        366
    } else {
        365
    }
}

/// Number of days in month `m` (1-based) of year `y`.
pub open spec fn days_in_month(y: int, m: int) -> int {
    if m == 2 {
        if is_leap_year(y) {
            29
        } else {
            28
        }
    } else if m == 4 || m == 6 || m == 9 || m == 11 {
        30
    } else {
        31
    }
}

/// Days from 1970-01-01 to the first day of year `y`: non-negative for
/// years from 1970 on, negative before.
pub open spec fn days_before_year(y: int) -> int
    decreases (if y >= 1970 { y - 1970 } else { 1970 - y }),
{
    if y == 1970 {
        0
    } else if y > 1970 {
        days_before_year(y - 1) + days_in_year(y - 1)
    } else {
        days_before_year(y + 1) - days_in_year(y)
    }
}

/// Days from the first day of year `y` up to the first day of month `m`.
pub open spec fn days_before_month(y: int, m: int) -> int
    decreases (if m <= 1 { 0int } else { m }),
{
    if m <= 1 {
        0
    } else {
        days_before_month(y, m - 1) + days_in_month(y, m - 1)
    }
}

/// The whole day (since 1970-01-01, negative before it) that the
/// millisecond timestamp falls in.
pub open spec fn epoch_day_of_ms(ms: int) -> int {
    ms / 86400000
}

/// `(y, m)` is the calendar year and month whose days contain the day of
/// `ms`: the day falls at or after the first day of that month and
/// strictly before the first day of the next.
pub open spec fn year_month_resolves(ms: int, y: int, m: int) -> bool {
    let d = epoch_day_of_ms(ms);
    &&& 1 <= m <= 12
    &&& days_before_year(y) + days_before_month(y, m) <= d
    &&& d < days_before_year(y) + days_before_month(y, m) + days_in_month(y, m)
}

/// A year from 1970 on starts at least 365 days per elapsed year after the
/// epoch; used to bound the upward year scan.
proof fn lemma_days_before_year_lower(y: int)
    requires
        1970 <= y,
    ensures
        days_before_year(y) >= 365 * (y - 1970),
    decreases y - 1970,
{
    if y > 1970 {
        lemma_days_before_year_lower(y - 1);
    }
}

/// A year up to 1970 starts at least 365 days per year before the epoch;
/// used to bound the downward year scan.
proof fn lemma_days_before_year_upper(y: int)
    requires
        y <= 1970,
    ensures
        days_before_year(y) <= 365 * (y - 1970),
    decreases 1970 - y,
{
    if y < 1970 {
        lemma_days_before_year_upper(y + 1);
    }
}

/// The twelve months of a year cover exactly its days.
proof fn lemma_months_cover_year(y: int)
    ensures
        days_before_month(y, 13) == days_in_year(y),
{
    reveal_with_fuel(days_before_month, 14);
}

/// Later months of a year start no earlier.
proof fn lemma_days_before_month_mono(y: int, a: int, b: int)
    requires
        1 <= a <= b,
    ensures
        days_before_month(y, a) <= days_before_month(y, b),
    decreases b - a,
{
    if a < b {
        lemma_days_before_month_mono(y, a, b - 1);
    }
}

/// Later years start no earlier.
proof fn lemma_days_before_year_mono(a: int, b: int)
    requires
        a <= b,
    ensures
        days_before_year(a) <= days_before_year(b),
    decreases b - a,
{
    if a < b {
        lemma_days_before_year_mono(a, b - 1);
        if b <= 1970 {
            assert(days_before_year(b - 1) == days_before_year(b) - days_in_year(b - 1));
        }
    }
}

/// A timestamp resolves to exactly one year and month: the partition
/// identifier derived from a time is stable and deterministic.
pub proof fn lemma_resolution_unique(ms: int, y1: int, m1: int, y2: int, m2: int)
    requires
        year_month_resolves(ms, y1, m1),
        year_month_resolves(ms, y2, m2),
    ensures
        y1 == y2,
        m1 == m2,
{
    let d = epoch_day_of_ms(ms);
    assert forall|ya: int, ma: int, yb: int, mb: int|
        year_month_resolves(ms, ya, ma) && year_month_resolves(ms, yb, mb) && (ya < yb || (ya == yb
            && ma < mb)) implies false by {
        if ya < yb {
            lemma_months_cover_year(ya);
            lemma_days_before_month_mono(ya, ma + 1, 13);
            lemma_days_before_year_mono(ya + 1, yb);
            lemma_days_before_month_mono(yb, 1, mb);
            assert(d < days_before_year(ya) + days_in_year(ya));
            assert(days_before_year(yb) <= d);
        } else {
            lemma_days_before_month_mono(ya, ma + 1, mb);
            assert(d < days_before_year(ya) + days_before_month(ya, ma + 1));
            assert(days_before_year(ya) + days_before_month(ya, mb) <= d);
        }
    }
    if y1 != y2 || m1 != m2 {
        assert(false);
    }
}

/// A timestamp at or after the epoch resolves to a year from 1970 on.
pub proof fn lemma_epoch_times_resolve_from_1970(ms: int, y: int, m: int)
    requires
        0 <= ms,
        year_month_resolves(ms, y, m),
    ensures
        1970 <= y,
{
    if y < 1970 {
        lemma_months_cover_year(y);
        lemma_days_before_month_mono(y, m + 1, 13);
        lemma_days_before_year_upper(y + 1);
        assert(epoch_day_of_ms(ms) >= 0);
        assert(false);
    }
}

/// Leap status for years in the scanned range.  Years are shifted by a
/// multiple of 400 into unsigned territory, which leaves divisibility by
/// 4, 100 and 400 unchanged.
fn leap_year(y: i64) -> (b: bool)
    requires
        -400000000 <= y <= 400000000,
    ensures
        b == is_leap_year(y as int),
{
    let u: u64 = (y + 2_000_000_000) as u64;
    proof {
        lemma_mod_multiples_vanish(500000000, y as int, 4);
        lemma_mod_multiples_vanish(20000000, y as int, 100);
        lemma_mod_multiples_vanish(5000000, y as int, 400);
    }
    u % 4 == 0 && (u % 100 != 0 || u % 400 == 0)
}

fn year_len(y: i64) -> (d: i64)
    requires
        -400000000 <= y <= 400000000,
    ensures
        d == days_in_year(y as int),
        365 <= d <= 366,
{
    if leap_year(y) {
        366
    } else {
        365
    }
}

fn month_len(y: i64, m: i64) -> (d: i64)
    requires
        -400000000 <= y <= 400000000,
        1 <= m <= 12,
    ensures
        d == days_in_month(y as int, m as int),
        28 <= d <= 31,
{
    if m == 2 {
        if leap_year(y) {
            29
        } else {
            28
        }
    } else if m == 4 || m == 6 || m == 9 || m == 11 {
        30
    } else {
        31
    }
}

/// The whole day a millisecond timestamp falls in: division rounded
/// towards negative infinity.
fn epoch_day(ms: i64) -> (d: i64)
    ensures
        d == epoch_day_of_ms(ms as int),
{
    let q = ms / 86_400_000;
    let r = ms % 86_400_000;
    if r < 0 {
        q - 1
    } else {
        q
    }
}

/// Resolve a unix timestamp in milliseconds to the calendar year and month
/// containing it.
pub fn get_year_and_month(from_ms: i64) -> (r: (i32, i32))
    ensures
        year_month_resolves(from_ms as int, r.0 as int, r.1 as int),
{
    let d: i64 = epoch_day(from_ms);
    let mut y: i64 = 1970;
    let mut rem: i64 = d;
    if rem < 0 {
        while rem < 0
            invariant
                y <= 1970,
                -300000000 <= y,
                rem == d - days_before_year(y as int),
                d == epoch_day_of_ms(from_ms as int),
                -106751991168 <= d <= 106751991167,
                rem < days_in_year(y as int),
            decreases (if rem < 0 { 0 - rem } else { 0int }),
        {
            proof {
                lemma_days_before_year_upper(y as int);
            }
            y = y - 1;
            rem = rem + year_len(y);
        }
    } else {
        while rem >= year_len(y)
            invariant
                1970 <= y <= 300000000,
                rem == d - days_before_year(y as int),
                d == epoch_day_of_ms(from_ms as int),
                0 <= rem,
                d <= 106751991167,
            decreases rem,
        {
            proof {
                lemma_days_before_year_lower(y as int);
            }
            rem = rem - year_len(y);
            y = y + 1;
        }
    }
    proof {
        lemma_months_cover_year(y as int);
    }
    let mut m: i64 = 1;
    while rem >= month_len(y, m)
        invariant
            1 <= m <= 12,
            -300000000 <= y <= 300000000,
            0 <= rem,
            rem == d - days_before_year(y as int) - days_before_month(y as int, m as int),
            rem < days_in_year(y as int) - days_before_month(y as int, m as int),
            days_before_month(y as int, 13) == days_in_year(y as int),
            d == epoch_day_of_ms(from_ms as int),
        decreases rem,
    {
        rem = rem - month_len(y, m);
        m = m + 1;
    }
    (y as i32, m as i32)
}

} // verus!
