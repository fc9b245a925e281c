//! Dates as a calendar on the wall has them: day after day.

use vstd::prelude::*;

use crate::calendar::{
    civil_from_days, compact_utc_stamp, day_number, days_before_month, law_date_is_unique,
    law_years_are_counted, leap, month_length, valid_date,
};
use crate::laws::texts::{digits_only, lemma_decimal_digits, worth};
use crate::text::{decimal, padded};
use crate::time::{Duration, Instant};

verus! {

/// How long a month is: thirty days hath September.
pub open spec fn length_of(y: int, m: int) -> int {
    if m == 9 || m == 4 || m == 6 || m == 11 {
        30
    } else if m != 2 {
        31
    } else if y % 400 == 0 || y % 4 == 0 && y % 100 != 0 {
        29
    } else {
        28
    }
}

/// The day that follows in the calendar.
pub open spec fn follows(a: (i64, u32, u32), b: (i64, u32, u32)) -> bool {
    ||| b.0 == a.0 && b.1 == a.1 && b.2 == a.2 + 1 && b.2 <= length_of(a.0 as int, a.1 as int)
    ||| b.0 == a.0 && b.1 == a.1 + 1 && b.1 <= 12 && b.2 == 1 && a.2 == length_of(
        a.0 as int,
        a.1 as int,
    )
    ||| b.0 == a.0 + 1 && a.1 == 12 && a.2 == 31 && b.1 == 1 && b.2 == 1
}

proof fn lemma_year_total(y: int)
    ensures
        days_before_month(y, 12) + 31 == 365 + if leap(y) {
            1int
        } else {
            0
        },
{
    reveal_with_fuel(days_before_month, 13);
}

/// The count of days begins on the first of January 1970, and from one number to
/// the next the date moves on by one day of the calendar.
#[verifier::rlimit(40)]
pub proof fn law_dates_follow_day_after_day(
    days: i64,
    a: (i64, u32, u32),
    b: (i64, u32, u32),
    first: (i64, u32, u32),
)
    requires
        days < i64::MAX - 719_468,
        call_ensures(civil_from_days, (days,), a),
        call_ensures(civil_from_days, ((days + 1) as i64,), b),
        call_ensures(civil_from_days, (0i64,), first),
    ensures
        first == (1970i64, 1u32, 1u32),
        1 <= a.1 <= 12 && 1 <= a.2 <= length_of(a.0 as int, a.1 as int),
        follows(a, b),
{
    let (y, m, d) = (a.0 as int, a.1 as int, a.2 as int);
    law_years_are_counted(y);
    law_years_are_counted(1970);
    assert(days_before_month(1970, 1) == 0);
    law_date_is_unique(first.0 as int, first.1 as int, first.2 as int, 1970, 1, 1);
    assert(month_length(y, m) == length_of(y, m));
    if d < month_length(y, m) {
        law_date_is_unique(b.0 as int, b.1 as int, b.2 as int, y, m, d + 1);
    } else if m < 12 {
        assert(days_before_month(y, m + 1) == days_before_month(y, m) + month_length(y, m));
        assert(month_length(y, m + 1) >= 28);
        law_date_is_unique(b.0 as int, b.1 as int, b.2 as int, y, m + 1, 1);
    } else {
        lemma_year_total(y);
        assert(days_before_month(y + 1, 1) == 0);
        law_date_is_unique(b.0 as int, b.1 as int, b.2 as int, y + 1, 1, 1);
    }
}

/// Two digits that are worth `n`.
pub open spec fn two_digits(s: Seq<char>, n: int) -> bool {
    s.len() == 2 && digits_only(s) && worth(s) == n
}

proof fn lemma_two_digits(n: nat)
    requires
        n < 100,
    ensures
        two_digits(padded(n, 2), n as int),
{
    lemma_decimal_digits(n);
    let d = decimal(n);
    let s = padded(n, 2);
    reveal_with_fuel(crate::text::decimal, 3);
    reveal_with_fuel(worth, 3);
    if n < 10 {
        assert(d.len() == 1);
        assert(s =~= seq!['0', d[0]]);
        assert(s.subrange(0, 1) =~= seq!['0']);
        assert(s.subrange(0, 1).subrange(0, 0).len() == 0);
        assert(d.subrange(0, 0).len() == 0);
    } else {
        assert(d.len() == 2);
        assert(s == d);
    }
}

/// A stamp is the date, a hyphen and the time of day in UTC: two digits for the
/// month, the day, the hour, the minute and the second, which are the rest of
/// the day's 86400 seconds.
#[verifier::rlimit(40)]
pub proof fn law_stamp_is_the_date_and_time(
    unix_secs: u64,
    r: String,
    days: i64,
    date: (i64, u32, u32),
)
    requires
        call_ensures(compact_utc_stamp, (unix_secs,), r),
        days == unix_secs / 86_400,
        call_ensures(civil_from_days, (days,), date),
    ensures
        exists|y: Seq<char>, mo: Seq<char>, d: Seq<char>, h: Seq<char>, mi: Seq<char>, s: Seq<char>|
            {
                &&& r@ == #[trigger] (y + mo + d) + seq!['-'] + #[trigger] (h + mi + s)
                &&& y.len() >= 4 && digits_only(y) && worth(y) == date.0
                &&& two_digits(mo, date.1 as int) && two_digits(d, date.2 as int)
                &&& two_digits(h, worth(h)) && two_digits(mi, worth(mi)) && two_digits(s, worth(s))
                &&& worth(mi) < 60 && worth(s) < 60
                &&& 3600 * worth(h) + 60 * worth(mi) + worth(s) == unix_secs % 86_400
            },
{
    let (y, m, d) = choose|y: nat, m: nat, d: nat|
        #![trigger day_number(y as int, m as int, d as int)]
        {
            let secs = (unix_secs % 86_400) as nat;
            &&& valid_date(y as int, m as int, d as int)
            &&& day_number(y as int, m as int, d as int) == unix_secs as nat / 86_400
            &&& r@ == padded(y, 4) + padded(m, 2) + padded(d, 2) + "-"@ + padded(secs / 3600, 2)
                + padded((secs % 3600) / 60, 2) + padded(secs % 60, 2)
        };
    let secs = (unix_secs % 86_400) as nat;
    law_date_is_unique(
        date.0 as int,
        date.1 as int,
        date.2 as int,
        y as int,
        m as int,
        d as int,
    );
    lemma_two_digits(m);
    lemma_two_digits(d);
    lemma_two_digits(secs / 3600);
    lemma_two_digits((secs % 3600) / 60);
    lemma_two_digits(secs % 60);
    lemma_year_digits(y);
    reveal_strlit("-");
    assert("-"@ =~= seq!['-']);
    let yy = padded(y, 4);
    let mo = padded(m, 2);
    let dd = padded(d, 2);
    let h = padded(secs / 3600, 2);
    let mi = padded((secs % 3600) / 60, 2);
    let s = padded(secs % 60, 2);
    assert(r@ =~= (yy + mo + dd) + seq!['-'] + (h + mi + s));
    assert(3600 * (secs / 3600) + 60 * ((secs % 3600) / 60) + secs % 60 == secs);
}

proof fn lemma_year_digits(n: nat)
    ensures
        padded(n, 4).len() >= 4,
        digits_only(padded(n, 4)),
        worth(padded(n, 4)) == n,
{
    lemma_decimal_digits(n);
    let d = decimal(n);
    if d.len() < 4 {
        let z = Seq::new((4 - d.len()) as nat, |i: int| '0');
        crate::laws::invitations::lemma_zeros((4 - d.len()) as nat, d);
        assert forall|i: int| 0 <= i < (z + d).len() implies 48 <= (#[trigger] (z + d)[i]) as u32 && (
        z + d)[i] as u32 <= 57 by {
            if i >= z.len() {
                assert((z + d)[i] == d[i - z.len()]);
            }
        }
    }
}

/// Spans are counted in nanoseconds, and time that has not come yet counts as
/// none.
pub proof fn law_spans_are_nanoseconds(
    secs: u64,
    a: Duration,
    millis: u64,
    b: Duration,
    whole: u64,
    t: Instant,
    u: Instant,
    since: Duration,
    later: Instant,
)
    requires
        call_ensures(Duration::from_secs, (secs,), a),
        call_ensures(Duration::from_millis, (millis,), b),
        call_ensures(Duration::as_secs, (since,), whole),
        call_ensures(Instant::duration_since, (t, u), since),
        call_ensures(Instant::after, (u, since), later),
    ensures
        a.nanos == secs * 1_000_000_000,
        b.nanos == millis * 1_000_000,
        u.nanos <= t.nanos ==> later == t,
        t.nanos <= u.nanos ==> since.nanos == 0,
        whole * 1_000_000_000 <= since.nanos,
        whole < u64::MAX ==> since.nanos < (whole + 1) * 1_000_000_000,
{
}

} // verus!
