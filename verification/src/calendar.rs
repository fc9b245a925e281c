//! The proleptic Gregorian calendar, for time stamps in file names.

use vstd::prelude::*;

use crate::text::{padded, padded_string};

verus! {

pub open spec fn leap(y: int) -> bool {
    y % 4 == 0 && (y % 100 != 0 || y % 400 == 0)
}

/// The days from 1970-01-01 to the first day of year `y`: 365 for every year
/// and one for every leap year between them.
pub open spec fn days_before_year(y: int) -> int {
    365 * y + (y - 1) / 4 - (y - 1) / 100 + (y - 1) / 400 - 719_527
}

pub open spec fn month_length(y: int, m: int) -> int {
    if m == 2 {
        if leap(y) {
            29
        } else {
            28
        }
    } else if m == 4 || m == 6 || m == 9 || m == 11 {
        30
    } else {
        31
    }
}

/// The days of the year before its month `m`.
pub open spec fn days_before_month(y: int, m: int) -> int
    decreases m,
{
    if m <= 1 {
        0
    } else {
        days_before_month(y, m - 1) + month_length(y, m - 1)
    }
}

/// A date that exists.
pub open spec fn valid_date(y: int, m: int, d: int) -> bool {
    1 <= m <= 12 && 1 <= d <= month_length(y, m)
}

/// The days from 1970-01-01 to a date.
pub open spec fn day_number(y: int, m: int, d: int) -> int {
    days_before_year(y) + days_before_month(y, m) + d - 1
}

/// The first days of the years are as far apart as the years are long, and the
/// count starts in 1970.
pub proof fn law_years_are_counted(y: int)
    ensures
        days_before_year(1970) == 0,
        days_before_year(y + 1) == days_before_year(y) + 365 + if leap(y) {
            1int
        } else {
            0
        },
{
    lemma_floor_step(y, 4);
    lemma_floor_step(y, 100);
    lemma_floor_step(y, 400);
    lemma_multiples(y);
}

/// One more multiple of `k` comes exactly with a multiple of `k`.
proof fn lemma_floor_step(y: int, k: int)
    requires
        k == 4 || k == 100 || k == 400,
    ensures
        y / k == (y - 1) / k + if y % k == 0 {
            1int
        } else {
            0
        },
{
}

proof fn lemma_multiples(y: int)
    ensures
        y % 400 == 0 ==> y % 100 == 0,
        y % 100 == 0 ==> y % 4 == 0,
{
}

proof fn lemma_days_before_months(y: int)
    ensures
        days_before_month(y, 1) == 0,
        days_before_month(y, 2) == 31,
        ({
            let f = if leap(y) {
                60int
            } else {
                59
            };
            &&& days_before_month(y, 3) == f
            &&& days_before_month(y, 4) == f + 31
            &&& days_before_month(y, 5) == f + 61
            &&& days_before_month(y, 6) == f + 92
            &&& days_before_month(y, 7) == f + 122
            &&& days_before_month(y, 8) == f + 153
            &&& days_before_month(y, 9) == f + 184
            &&& days_before_month(y, 10) == f + 214
            &&& days_before_month(y, 11) == f + 245
            &&& days_before_month(y, 12) == f + 275
        }),
{
    reveal_with_fuel(days_before_month, 13);
}

/// A day of a 400-year era as century, cycle of four years, year of the cycle
/// and day of the year, all counted from the first of March.
proof fn lemma_era_day(doe: int) -> (r: (int, int, int, int))
    requires
        0 <= doe <= 146_096,
    ensures
        ({
            let (c, q, t, u) = r;
            &&& 0 <= c <= 3
            &&& 0 <= q <= 24
            &&& 0 <= t <= 3
            &&& 0 <= u <= 365
            &&& doe == 36_524 * c + 1461 * q + 365 * t + u
            &&& u == 365 ==> t == 3 && (q < 24 || c == 3)
        }),
{
    let c = if doe / 36_524 > 3 {
        3
    } else {
        doe / 36_524
    };
    let rest = doe - 36_524 * c;
    assert(0 <= rest <= 36_524);
    assert(rest == 36_524 ==> c == 3);
    let q = rest / 1461;
    let s = rest - 1461 * q;
    assert(0 <= q <= 24);
    assert(0 <= s <= 1460);
    let t = if s / 365 > 3 {
        3
    } else {
        s / 365
    };
    let u = s - 365 * t;
    (c, q, t, u)
}

/// The year of the era as the closed formula computes it.
spec fn year_of_era(doe: int) -> int {
    (doe - doe / 1460 + doe / 36_524 - doe / 146_096) / 365
}

proof fn lemma_year_of_era(doe: int, c: int, q: int, t: int, u: int)
    requires
        0 <= doe <= 146_096,
        0 <= c <= 3,
        0 <= q <= 24,
        0 <= t <= 3,
        0 <= u <= 365,
        doe == 36_524 * c + 1461 * q + 365 * t + u,
        u == 365 ==> t == 3 && (q < 24 || c == 3),
    ensures
        year_of_era(doe) == 100 * c + 4 * q + t,
        365 * (100 * c + 4 * q + t) + (100 * c + 4 * q + t) / 4 - (100 * c + 4 * q + t) / 100
            == doe - u,
{
    let y = 100 * c + 4 * q + t;
    assert(y / 4 == 25 * c + q);
    assert(y / 100 == c);
    if doe == 146_096 {
        assert(c == 3 && q == 24 && t == 3 && u == 365);
    } else {
        let x = 24 * c + q + 365 * t + u;
        let e = if x >= 1460 {
            1int
        } else {
            0
        };
        assert(doe == 1460 * (25 * c + q) + x);
        assert(doe / 1460 == 25 * c + q + e);
        assert(doe / 36_524 == c);
        assert(doe / 146_096 == 0);
        assert(doe - doe / 1460 + doe / 36_524 - doe / 146_096 == 365 * y + u - e);
        assert(0 <= u - e <= 364);
    }
}

/// Where the months that begin in March lie in their year.
proof fn lemma_month_of_day(u: int) -> (mp: int)
    requires
        0 <= u <= 365,
    ensures
        mp == (5 * u + 2) / 153,
        0 <= mp <= 11,
        ({
            let start = (153 * mp + 2) / 5;
            let next = if mp == 11 {
                366
            } else {
                (153 * (mp + 1) + 2) / 5
            };
            start <= u < next
        }),
{
    (5 * u + 2) / 153
}

/// The date that year `y` (counted from March), month `mp` and day `u` stand
/// for is `days` days after 1970-01-01.
proof fn lemma_date(era: int, yoe: int, u: int, mp: int, days: int)
    requires
        0 <= yoe < 400,
        0 <= u <= 365,
        mp == (5 * u + 2) / 153,
        days + 719_468 == era * 146_097 + 365 * yoe + yoe / 4 - yoe / 100 + u,
        u == 365 ==> leap(yoe + era * 400 + 1),
    ensures
        ({
            let d = u - (153 * mp + 2) / 5 + 1;
            let m = if mp < 10 {
                mp + 3
            } else {
                mp - 9
            };
            let y = yoe + era * 400 + if m <= 2 {
                1int
            } else {
                0
            };
            valid_date(y, m, d) && day_number(y, m, d) == days
        }),
{
    let y1 = yoe + era * 400;
    assert(y1 / 4 == 100 * era + yoe / 4);
    assert(y1 / 100 == 4 * era + yoe / 100);
    assert(y1 / 400 == era);
    lemma_floor_step(y1, 4);
    lemma_floor_step(y1, 100);
    lemma_floor_step(y1, 400);
    lemma_multiples(y1);
    lemma_days_before_months(y1);
    lemma_days_before_months(y1 + 1);
    let mp2 = lemma_month_of_day(u);
    assert(days_before_year(y1 + 1) == 365 * (y1 + 1) + y1 / 4 - y1 / 100 + y1 / 400 - 719_527);
    assert(days_before_year(y1) + (if leap(y1) {
        60int
    } else {
        59
    }) == 365 * y1 + y1 / 4 - y1 / 100 + y1 / 400 - 719_468);
    assert(days == 365 * y1 + y1 / 4 - y1 / 100 + y1 / 400 + u - 719_468);
}

/// The closed formulas give the date.
proof fn lemma_civil(days: int, era: int, doe: int)
    requires
        0 <= doe <= 146_096,
        days + 719_468 == era * 146_097 + doe,
    ensures
        ({
            let yoe = year_of_era(doe);
            let doy = doe - (365 * yoe + yoe / 4 - yoe / 100);
            let mp = (5 * doy + 2) / 153;
            let d = doy - (153 * mp + 2) / 5 + 1;
            let m = if mp < 10 {
                mp + 3
            } else {
                mp - 9
            };
            let y = yoe + era * 400 + if m <= 2 {
                1int
            } else {
                0
            };
            &&& 0 <= yoe < 400
            &&& 0 <= doy <= 365
            &&& 0 <= mp <= 11
            &&& valid_date(y, m, d)
            &&& day_number(y, m, d) == days
        }),
{
    let (c, q, t, u) = lemma_era_day(doe);
    lemma_year_of_era(doe, c, q, t, u);
    let yoe = 100 * c + 4 * q + t;
    if u == 365 {
        let next = yoe + era * 400 + 1;
        lemma_leap_end(era, c, q);
        assert(next == 400 * era + 100 * c + 4 * (q + 1));
    }
    let mp = lemma_month_of_day(u);
    lemma_date(era, yoe, u, mp, days);
}

/// The last day of a long year is the leap day of the year that follows.
proof fn lemma_leap_end(era: int, c: int, q: int)
    requires
        0 <= c <= 3,
        0 <= q <= 24,
        q < 24 || c == 3,
    ensures
        leap(400 * era + 100 * c + 4 * (q + 1)),
{
    let y = 400 * era + 100 * c + 4 * (q + 1);
    assert(y == 4 * (100 * era + 25 * c + q + 1));
    assert(y % 4 == 0);
    if q < 24 {
        assert(y == 100 * (4 * era + c) + 4 * (q + 1));
        assert(y % 100 == 4 * (q + 1));
    } else {
        assert(y == 400 * (era + 1));
        assert(y % 400 == 0);
    }
}

/// The date that is `days` days after 1970-01-01.
pub fn civil_from_days(days: i64) -> (r: (i64, u32, u32))
    requires
        days <= i64::MAX - 719_468,
    ensures
        valid_date(r.0 as int, r.1 as int, r.2 as int),
        day_number(r.0 as int, r.1 as int, r.2 as int) == days,
{
    let z: i64 = days + 719_468;
    let (era, doe) = era_and_day(z);
    let yoe: i64 = (doe - doe / 1460 + doe / 36_524 - doe / 146_096) / 365;
    proof {
        lemma_civil(days as int, era as int, doe as int);
        assert(yoe == year_of_era(doe as int));
    }
    let doy: i64 = doe - (365 * yoe + yoe / 4 - yoe / 100);
    let mp: i64 = (5 * doy + 2) / 153;
    let d: u32 = (doy - (153 * mp + 2) / 5 + 1) as u32;
    let m: u32 = (if mp < 10 {
        mp + 3
    } else {
        mp - 9
    }) as u32;
    let y: i64 = yoe + era * 400 + if m <= 2 {
        1
    } else {
        0
    };
    (y, m, d)
}

/// The 400-year era of a day and the day of that era.
fn era_and_day(z: i64) -> (r: (i64, i64))
    requires
        z >= i64::MIN + 719_468,
    ensures
        0 <= r.1 <= 146_096,
        z == r.0 * 146_097 + r.1,
        -70_000_000_000_000 <= r.0 <= 70_000_000_000_000,
{
    let era: i64 = if z >= 0 {
        z / 146_097
    } else {
        -((146_096 - z) / 146_097)
    };
    proof {
        assert(146_097 * era <= z <= 146_097 * era + 146_096);
    }
    (era, z - era * 146_097)
}

/// A day number belongs to one date only.
pub proof fn law_date_is_unique(y: int, m: int, d: int, y2: int, m2: int, d2: int)
    requires
        valid_date(y, m, d),
        valid_date(y2, m2, d2),
        day_number(y, m, d) == day_number(y2, m2, d2),
    ensures
        y == y2 && m == m2 && d == d2,
{
    if y < y2 {
        lemma_year_order(y, m, d, y2, m2, d2);
    } else if y2 < y {
        lemma_year_order(y2, m2, d2, y, m, d);
    }
    lemma_days_before_months(y);
}

proof fn lemma_days_before_year_grows(y: int, y2: int)
    requires
        y < y2,
    ensures
        days_before_year(y + 1) <= days_before_year(y2),
    decreases y2 - y,
{
    if y + 1 < y2 {
        lemma_days_before_year_grows(y, y2 - 1);
        law_years_are_counted(y2 - 1);
    }
}

proof fn lemma_year_order(y: int, m: int, d: int, y2: int, m2: int, d2: int)
    requires
        valid_date(y, m, d),
        valid_date(y2, m2, d2),
        y < y2,
    ensures
        day_number(y, m, d) < day_number(y2, m2, d2),
{
    lemma_days_before_year_grows(y, y2);
    law_years_are_counted(y);
    lemma_days_before_months(y);
    lemma_days_before_months(y2);
}

/// Whether `s` is the stamp `YYYYMMDD-HHMMSS` of a time in seconds since the
/// Unix epoch.
pub open spec fn stamp_of(s: Seq<char>, unix_secs: nat) -> bool {
    exists|y: nat, m: nat, d: nat|
        #![trigger day_number(y as int, m as int, d as int)]
        {
            let secs = unix_secs % 86_400;
            &&& valid_date(y as int, m as int, d as int)
            &&& day_number(y as int, m as int, d as int) == unix_secs / 86_400
            &&& s == padded(y, 4) + padded(m, 2) + padded(d, 2) + "-"@ + padded(secs / 3600, 2)
                + padded((secs % 3600) / 60, 2) + padded(secs % 60, 2)
        }
}

/// The compact stamp of a time, for file names.
pub fn compact_utc_stamp(unix_secs: u64) -> (r: String)
    ensures
        stamp_of(r@, unix_secs as nat),
{
    let days: u64 = unix_secs / 86_400;
    let (y, m, d) = civil_from_days(days as i64);
    let secs: u64 = unix_secs % 86_400;
    proof {
        if y < 1970 {
            lemma_year_order(y as int, m as int, d as int, 1970, 1, 1);
            lemma_days_before_months(1970);
            law_years_are_counted(1970);
        }
    }
    let mut s = padded_string(y as u64, 4);
    let ms = padded_string(m as u64, 2);
    let ds = padded_string(d as u64, 2);
    let hh = padded_string(secs / 3600, 2);
    let mi = padded_string((secs % 3600) / 60, 2);
    let ss = padded_string(secs % 60, 2);
    s.append(ms.as_str());
    s.append(ds.as_str());
    s.append("-");
    s.append(hh.as_str());
    s.append(mi.as_str());
    s.append(ss.as_str());
    proof {
        let yn = y as nat;
        let mn = m as nat;
        let dn = d as nat;
        assert(day_number(yn as int, mn as int, dn as int) == unix_secs as nat / 86_400);
    }
    s
}

} // verus!
