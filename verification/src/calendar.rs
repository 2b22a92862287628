//! Civil (proleptic Gregorian) dates of days counted from 1970-01-01.

use vstd::prelude::*;
use vstd::arithmetic::div_mod::lemma_fundamental_div_mod;

verus! {

/// Gregorian leap year.
pub open spec fn is_leap(y: int) -> bool {
    y % 4 == 0 && (y % 100 != 0 || y % 400 == 0)
}

/// Days in month `m` (1–12) of year `y`.
pub open spec fn month_len(y: int, m: int) -> int {
    if m == 2 {
        if is_leap(y) {
            29
        } else {
            28
        }
    } else if m == 4 || m == 6 || m == 9 || m == 11 {
        30
    } else {
        31
    }
}

/// Days of year `y` before the first of month `m` (1–12).
pub open spec fn days_before_month(y: int, m: int) -> int {
    let base = if m == 1 {
        0int
    } else if m == 2 {
        31
    } else if m == 3 {
        59
    } else if m == 4 {
        90
    } else if m == 5 {
        120
    } else if m == 6 {
        151
    } else if m == 7 {
        181
    } else if m == 8 {
        212
    } else if m == 9 {
        243
    } else if m == 10 {
        273
    } else if m == 11 {
        304
    } else {
        334
    };
    base + if m > 2 && is_leap(y) {
        1int
    } else {
        0
    }
}

/// Number of leap years among the years 1 to `y`.
pub open spec fn leaps_through(y: int) -> int {
    y / 4 - y / 100 + y / 400
}

/// Days from 1970-01-01 to January 1 of year `y`.
pub open spec fn days_before_year(y: int) -> int {
    365 * (y - 1970) + leaps_through(y - 1) - leaps_through(1969)
}

/// Days from 1970-01-01 to the date `y`-`m`-`d`.
pub open spec fn day_number(y: int, m: int, d: int) -> int {
    days_before_year(y) + days_before_month(y, m) + d - 1
}

/// A real date: month 1–12, day within the month.
pub open spec fn valid_date(y: int, m: int, d: int) -> bool {
    1 <= m <= 12 && 1 <= d <= month_len(y, m)
}

/// `leaps_through` counts exactly the years that `is_leap` accepts.
pub proof fn lemma_leaps_step(y: int)
    ensures
        leaps_through(y) == leaps_through(y - 1) + if is_leap(y) {
            1int
        } else {
            0
        },
{
    lemma_fundamental_div_mod(y, 4);
    lemma_fundamental_div_mod(y, 100);
    lemma_fundamental_div_mod(y, 400);
    lemma_fundamental_div_mod(y - 1, 4);
    lemma_fundamental_div_mod(y - 1, 100);
    lemma_fundamental_div_mod(y - 1, 400);
}

proof fn lemma_leaps_monotone(a: int, b: int)
    requires
        a <= b,
    ensures
        leaps_through(a) <= leaps_through(b),
    decreases b - a,
{
    if a < b {
        lemma_leaps_step(b);
        lemma_leaps_monotone(a, b - 1);
    }
}

proof fn lemma_date_in_year(y: int, m: int, d: int)
    requires
        valid_date(y, m, d),
    ensures
        days_before_year(y) <= day_number(y, m, d) < days_before_year(y + 1),
        days_before_month(y, m) + d - 1 < days_before_month(y, m) + month_len(y, m),
{
    lemma_march_first(y);
}

/// Each day has exactly one date: two real dates with the same day number
/// are the same date.
pub proof fn lemma_day_number_unique(y1: int, m1: int, d1: int, y2: int, m2: int, d2: int)
    requires
        valid_date(y1, m1, d1),
        valid_date(y2, m2, d2),
        day_number(y1, m1, d1) == day_number(y2, m2, d2),
    ensures
        y1 == y2 && m1 == m2 && d1 == d2,
{
    lemma_date_in_year(y1, m1, d1);
    lemma_date_in_year(y2, m2, d2);
    if y1 < y2 {
        lemma_leaps_monotone(y1, y2 - 1);
        assert(days_before_year(y1 + 1) <= days_before_year(y2));
    } else if y2 < y1 {
        lemma_leaps_monotone(y2, y1 - 1);
        assert(days_before_year(y2 + 1) <= days_before_year(y1));
    }
    assert(y1 == y2);
}

/// The day after the date `y`-`m`-`d`.
pub open spec fn next_date(y: int, m: int, d: int) -> (int, int, int) {
    if d < month_len(y, m) {
        (y, m, d + 1)
    } else if m < 12 {
        (y, m + 1, 1)
    } else {
        (y + 1, 1, 1)
    }
}

/// The day after a real date is a real date, one day number later.
pub proof fn lemma_next_date(y: int, m: int, d: int)
    requires
        valid_date(y, m, d),
    ensures
        valid_date(next_date(y, m, d).0, next_date(y, m, d).1, next_date(y, m, d).2),
        day_number(next_date(y, m, d).0, next_date(y, m, d).1, next_date(y, m, d).2) == day_number(
            y,
            m,
            d,
        ) + 1,
{
    if d < month_len(y, m) {
    } else if m < 12 {
        assert(days_before_month(y, m + 1) == days_before_month(y, m) + month_len(y, m));
    } else {
        lemma_march_first(y);
    }
}

/// Day zero is 1970-01-01, and no other date.
pub proof fn lemma_epoch(y: int, m: int, d: int)
    requires
        valid_date(y, m, d),
    ensures
        day_number(1970, 1, 1) == 0,
        day_number(y, m, d) == 0 <==> (y, m, d) == (1970int, 1int, 1int),
{
    assert(valid_date(1970, 1, 1));
    if day_number(y, m, d) == 0 {
        lemma_day_number_unique(y, m, d, 1970, 1, 1);
    }
}

/// Consecutive day numbers are consecutive dates: the date of day `n + 1` is
/// the day after the date of day `n`.
pub proof fn lemma_consecutive_days(y1: int, m1: int, d1: int, y2: int, m2: int, d2: int)
    requires
        valid_date(y1, m1, d1),
        valid_date(y2, m2, d2),
        day_number(y2, m2, d2) == day_number(y1, m1, d1) + 1,
    ensures
        (y2, m2, d2) == next_date(y1, m1, d1),
{
    lemma_next_date(y1, m1, d1);
    let (y, m, d) = next_date(y1, m1, d1);
    lemma_day_number_unique(y, m, d, y2, m2, d2);
}

/// Days from 0000-03-01 to March 1 of year `y` (`y >= 0`).
spec fn march_start(y: int) -> int {
    365 * y + leaps_through(y)
}

/// Whether the era-relative March-based year `yoe` runs into a leap February.
spec fn march_year_leap(yoe: int) -> bool {
    (yoe + 1) % 4 == 0 && ((yoe + 1) % 100 != 0 || yoe + 1 == 400)
}

spec fn yoe_of(doe: int) -> int {
    (doe - doe / 1460 + doe / 36524 - doe / 146096) / 365
}

spec fn doy_of(doe: int) -> int {
    let yoe = yoe_of(doe);
    doe - (365 * yoe + yoe / 4 - yoe / 100)
}

#[verifier::rlimit(50)]
proof fn lemma_year_of_era(doe: int)
    requires
        0 <= doe < 146097,
    ensures
        0 <= yoe_of(doe) <= 399,
        0 <= doy_of(doe),
        doy_of(doe) < 365 + (if march_year_leap(yoe_of(doe)) { 1int } else { 0 }),
{
    let a = doe / 1460;
    let c = doe / 36524;
    let q = doe / 146096;
    lemma_fundamental_div_mod(doe, 1460);
    lemma_fundamental_div_mod(doe, 36524);
    lemma_fundamental_div_mod(doe, 146096);
    let f = doe - a + c - q;
    let yoe = f / 365;
    lemma_fundamental_div_mod(f, 365);
    lemma_fundamental_div_mod(yoe, 4);
    lemma_fundamental_div_mod(yoe, 100);
    lemma_fundamental_div_mod(yoe + 1, 4);
    lemma_fundamental_div_mod(yoe + 1, 100);
}

/// Days from March 1 to the first of the March-based month `mp` (0 = March).
spec fn march_month_start(mp: int) -> int {
    (153 * mp + 2) / 5
}

proof fn lemma_month_of_year(doy: int)
    requires
        0 <= doy < 366,
    ensures
        0 <= (5 * doy + 2) / 153 <= 11,
        march_month_start((5 * doy + 2) / 153) <= doy < march_month_start((5 * doy + 2) / 153 + 1),
{
    let mp = (5 * doy + 2) / 153;
    lemma_fundamental_div_mod(5 * doy + 2, 153);
    lemma_fundamental_div_mod(153 * mp + 2, 5);
    lemma_fundamental_div_mod(153 * (mp + 1) + 2, 5);
}

proof fn lemma_march_start_era(era: int, yoe: int)
    requires
        era >= 0,
        0 <= yoe <= 399,
    ensures
        march_start(400 * era + yoe) == 146097 * era + 365 * yoe + yoe / 4 - yoe / 100,
{
    let y = 400 * era + yoe;
    lemma_fundamental_div_mod(y, 4);
    lemma_fundamental_div_mod(y, 100);
    lemma_fundamental_div_mod(y, 400);
    lemma_fundamental_div_mod(yoe, 4);
    lemma_fundamental_div_mod(yoe, 100);
}

proof fn lemma_march_first(y: int)
    ensures
        days_before_year(y) + 59 + (if is_leap(y) { 1int } else { 0 }) == march_start(y) - 719468,
        days_before_year(y + 1) == days_before_year(y) + 365 + (if is_leap(y) { 1int } else { 0 }),
{
    lemma_leaps_step(y);
    assert(leaps_through(1969) == 477);
}

proof fn lemma_leap_in_era(era: int, yoe: int)
    requires
        era >= 0,
        0 <= yoe <= 399,
    ensures
        march_year_leap(yoe) == is_leap(400 * era + yoe + 1),
{
    let y1 = 400 * era + yoe + 1;
    lemma_fundamental_div_mod(y1, 4);
    lemma_fundamental_div_mod(y1, 100);
    lemma_fundamental_div_mod(y1, 400);
    lemma_fundamental_div_mod(yoe + 1, 4);
    lemma_fundamental_div_mod(yoe + 1, 100);
}

/// Turning a day of a March-based year into a calendar date.
proof fn lemma_civil_date(y: int, doy: int)
    requires
        0 <= doy < 365 + (if is_leap(y + 1) { 1int } else { 0 }),
    ensures
        ({
            let mp = (5 * doy + 2) / 153;
            let d = doy - (153 * mp + 2) / 5 + 1;
            let mo = if mp < 10 { mp + 3 } else { mp - 9 };
            let yr = if mo <= 2 { y + 1 } else { y };
            &&& 0 <= mp <= 11
            &&& valid_date(yr, mo, d)
            &&& day_number(yr, mo, d) == march_start(y) + doy - 719468
        }),
{
    lemma_month_of_year(doy);
    lemma_march_first(y);
    let mp = (5 * doy + 2) / 153;
    assert(march_month_start(0) == 0 && march_month_start(1) == 31 && march_month_start(2) == 61
        && march_month_start(3) == 92 && march_month_start(4) == 122 && march_month_start(5) == 153
        && march_month_start(6) == 184 && march_month_start(7) == 214 && march_month_start(8) == 245
        && march_month_start(9) == 275 && march_month_start(10) == 306 && march_month_start(11)
        == 337 && march_month_start(12) == 367);
}

/// The civil date of the day `days` days after 1970-01-01.
pub fn days_to_ymd(days: u64) -> (ymd: (u64, u64, u64))
    requires
        days <= u64::MAX - 719468,
    ensures
        valid_date(ymd.0 as int, ymd.1 as int, ymd.2 as int),
        day_number(ymd.0 as int, ymd.1 as int, ymd.2 as int) == days,
{
    let z = days + 719468;
    let era = z / 146097;
    let doe = z - era * 146097;
    proof {
        lemma_fundamental_div_mod(z as int, 146097);
        lemma_year_of_era(doe as int);
    }
    let yoe = (doe - doe / 1460 + doe / 36524 - doe / 146096) / 365;
    let y = yoe + era * 400;
    let doy = doe - (365 * yoe + yoe / 4 - yoe / 100);
    proof {
        lemma_march_start_era(era as int, yoe as int);
        lemma_leap_in_era(era as int, yoe as int);
        lemma_civil_date(y as int, doy as int);
    }
    let mp = (5 * doy + 2) / 153;
    let d = doy - (153 * mp + 2) / 5 + 1;
    let mo = if mp < 10 {
        mp + 3
    } else {
        mp - 9
    };
    let yr = if mo <= 2 {
        y + 1
    } else {
        y
    };
    (yr, mo, d)
}

} // verus!
