//! Dates of the Gregorian calendar.

use vstd::prelude::*;
use crate::text::{decimal_padded, push_decimal_padded, push_str, string_of};

verus! {

/// Whether a year has a 29th of February.
pub open spec fn is_leap(y: int) -> bool {
    (y % 4 == 0 && y % 100 != 0) || y % 400 == 0
}

pub open spec fn days_in_year(y: int) -> int {
    if is_leap(y) {
        366
    } else {
        365
    }
}

/// The length of a month; months count from 1.
pub open spec fn days_in_month(y: int, m: int) -> int {
    if m == 2 {
        if is_leap(y) {
            29
        } else {
            28
        }
    } else if m == 4 || m == 6 || m == 9 || m == 11 {
        30
    } else {
        31
    }
}

/// The days from the beginning of 1970 to the beginning of a year.
pub open spec fn days_before_year(y: int) -> int
    decreases y - 1970,
{
    if y <= 1970 {
        0
    } else {
        days_before_year(y - 1) + days_in_year(y - 1)
    }
}

/// The days from the beginning of a year to the beginning of a month.
pub open spec fn days_before_month(y: int, m: int) -> int
    decreases m,
{
    if m <= 1 {
        0
    } else {
        days_before_month(y, m - 1) + days_in_month(y, m - 1)
    }
}

/// A date: year, month and day.
pub struct Date {
    pub year: int,
    pub month: int,
    pub day: int,
}

/// Whether a date is the one `n` days after the first of January 1970.
pub open spec fn is_date(n: int, date: Date) -> bool {
    &&& 1970 <= date.year
    &&& 1 <= date.month <= 12
    &&& 1 <= date.day <= days_in_month(date.year, date.month)
    &&& n == days_before_year(date.year) + days_before_month(date.year, date.month) + date.day - 1
}

/// The date `n` days after the first of January 1970.
pub open spec fn date_of(n: int) -> Date {
    choose|date: Date| is_date(n, date)
}

/// `YYYY-MM-DD`.
pub open spec fn date_text(date: Date) -> Seq<char> {
    decimal_padded(date.year as nat, 4) + "-"@ + decimal_padded(date.month as nat, 2) + "-"@
        + decimal_padded(date.day as nat, 2)
}

proof fn lemma_years(y: int)
    requires
        1970 <= y,
    ensures
        days_before_year(y) == 365 * (y - 1970) + (y - 1) / 4 - (y - 1) / 100 + (y - 1) / 400
            - 477,
    decreases y,
{
    if y > 1970 {
        lemma_years(y - 1);
    }
}

proof fn lemma_months(y: int)
    ensures
        days_before_month(y, 12) + 31 == days_in_year(y),
{
    reveal_with_fuel(days_before_month, 13);
}

proof fn lemma_months_grow(y: int, a: int, b: int)
    requires
        1 <= a < b,
    ensures
        days_before_month(y, a) + days_in_month(y, a) <= days_before_month(y, b),
    decreases b,
{
    if a < b - 1 {
        lemma_months_grow(y, a, b - 1);
    }
}

proof fn lemma_years_grow(a: int, b: int)
    requires
        1970 <= a < b,
    ensures
        days_before_year(a) + days_in_year(a) <= days_before_year(b),
    decreases b,
{
    if a < b - 1 {
        lemma_years_grow(a, b - 1);
    }
}

proof fn lemma_within_year(n: int, date: Date)
    requires
        is_date(n, date),
    ensures
        days_before_year(date.year) <= n < days_before_year(date.year) + days_in_year(date.year),
{
    lemma_months(date.year);
    if date.month < 12 {
        lemma_months_grow(date.year, date.month, 12);
    }
    lemma_month_start(date.year, date.month);
}

proof fn lemma_month_start(y: int, m: int)
    ensures
        days_before_month(y, m) >= 0,
    decreases m,
{
    if m > 1 {
        lemma_month_start(y, m - 1);
    }
}

/// A day has one date.
pub proof fn law_date_unique(n: int, date: Date)
    requires
        is_date(n, date),
    ensures
        date_of(n) == date,
{
    let other = date_of(n);
    assert(is_date(n, other));
    lemma_within_year(n, date);
    lemma_within_year(n, other);
    if date.year < other.year {
        lemma_years_grow(date.year, other.year);
    } else if other.year < date.year {
        lemma_years_grow(other.year, date.year);
    }
    if date.month < other.month {
        lemma_months_grow(date.year, date.month, other.month);
    } else if other.month < date.month {
        lemma_months_grow(date.year, other.month, date.month);
    }
}

fn leap(y: u64) -> (r: bool)
    ensures
        r == is_leap(y as int),
{
    (y % 4 == 0 && y % 100 != 0) || y % 400 == 0
}

/// The year in which a day falls, and the days of it that came before.
fn year_of(days: u64) -> (r: (u64, u64))
    requires
        days <= 0xffff_ffff_ffff,
    ensures
        1970 <= r.0,
        r.1 < days_in_year(r.0 as int),
        days == days_before_year(r.0 as int) + r.1,
{
    // Days since the beginning of the year 1, in cycles of four hundred years.
    let n: u64 = days + 719162;
    let era: u64 = n / 146097;
    let in_era: u64 = n % 146097;
    let century: u64 = if in_era / 36524 < 4 {
        in_era / 36524
    } else {
        3
    };
    let in_century: u64 = in_era - century * 36524;
    let quad: u64 = in_century / 1461;
    let in_quad: u64 = in_century % 1461;
    let single: u64 = if in_quad / 365 < 4 {
        in_quad / 365
    } else {
        3
    };
    let before: u64 = in_quad - single * 365;
    let year: u64 = 1 + 400 * era + 100 * century + 4 * quad + single;
    proof {
        let p = year - 1;
        assert(p / 4 == 100 * era + 25 * century + quad);
        assert(p / 100 == 4 * era + century);
        assert(p / 400 == era);
        assert(n == 146097 * era + 36524 * century + 1461 * quad + 365 * single + before);
        assert(n == 365 * p + p / 4 - p / 100 + p / 400 + before);
        if year < 1970 {
            assert(p <= 1968);
            assert(365 * p + p / 4 - p / 100 + p / 400 + before < 719162);
        }
        lemma_years(year as int);
        assert(year % 4 == 0 <==> single == 3);
        assert(year % 100 == 0 <==> single == 3 && quad == 24);
        assert(year % 400 == 0 <==> single == 3 && quad == 24 && century == 3);
    }
    (year, before)
}

/// The date of a day.
fn civil(days: u64) -> (r: (u64, u64, u64))
    requires
        days <= 0xffff_ffff_ffff,
    ensures
        is_date(days as int, (Date { year: r.0 as int, month: r.1 as int, day: r.2 as int })),
{
    let (year, before) = year_of(days);
    let is_long: bool = leap(year);
    let mut rest: u64 = before;
    let mut month: u64 = 1;
    proof {
        lemma_months(year as int);
    }
    loop
        invariant_except_break
            1 <= month <= 12,
            is_long == is_leap(year as int),
            before < days_in_year(year as int),
            days_before_month(year as int, 12) + 31 == days_in_year(year as int),
            before == days_before_month(year as int, month as int) + rest,
        ensures
            1 <= month <= 12,
            rest < days_in_month(year as int, month as int),
            before == days_before_month(year as int, month as int) + rest,
        decreases 12 - month,
    {
        let length: u64 = if month == 2 {
            if is_long {
                29
            } else {
                28
            }
        } else if month == 4 || month == 6 || month == 9 || month == 11 {
            30
        } else {
            31
        };
        if rest < length {
            break;
        }
        rest = rest - length;
        month = month + 1;
    }
    (year, month, rest + 1)
}

fn push_date(out: &mut Vec<char>, days: u64)
    requires
        days <= 0xffff_ffff_ffff,
    ensures
        is_date(days as int, date_of(days as int)),
        final(out)@ == old(out)@ + date_text(date_of(days as int)),
{
    let (y, m, d) = civil(days);
    push_decimal_padded(out, y, 4);
    push_str(out, "-");
    push_decimal_padded(out, m, 2);
    push_str(out, "-");
    push_decimal_padded(out, d, 2);
    proof {
        let date = Date { year: y as int, month: m as int, day: d as int };
        law_date_unique(days as int, date);
        assert(out@ =~= old(out)@ + date_text(date));
    }
}

/// The date of a Unix time, as `YYYY-MM-DD`.
pub fn format_unix_date(unix_secs: u64) -> (r: String)
    ensures
        is_date(unix_secs as int / 86400, date_of(unix_secs as int / 86400)),
        r@ == date_text(date_of(unix_secs as int / 86400)),
{
    let mut out: Vec<char> = Vec::new();
    push_date(&mut out, unix_secs / 86400);
    assert(out@ =~= date_text(date_of(unix_secs as int / 86400)));
    string_of(&out)
}

/// Date and time of day of a Unix time.
pub open spec fn timestamp_text(secs: int) -> Seq<char> {
    date_text(date_of(secs / 86400)) + " "@ + decimal_padded((secs % 86400 / 3600) as nat, 2)
        + ":"@ + decimal_padded((secs % 3600 / 60) as nat, 2) + " UTC"@
}

/// A Unix time as `YYYY-MM-DD HH:MM UTC`.
pub fn format_unix_ts(secs: u64) -> (r: String)
    ensures
        is_date(secs as int / 86400, date_of(secs as int / 86400)),
        r@ == timestamp_text(secs as int),
{
    let mut out: Vec<char> = Vec::new();
    push_date(&mut out, secs / 86400);
    push_str(&mut out, " ");
    push_decimal_padded(&mut out, secs % 86400 / 3600, 2);
    push_str(&mut out, ":");
    push_decimal_padded(&mut out, secs % 3600 / 60, 2);
    push_str(&mut out, " UTC");
    assert(out@ =~= timestamp_text(secs as int));
    string_of(&out)
}

/// A year has 366 days when it can be divided by four, but not when it begins a
/// century, unless that can be divided by 400.
pub proof fn law_leap_years(k: int)
    ensures
        days_in_year(400 * k) == 366,
        days_in_year(400 * k + 100) == 365,
        days_in_year(400 * k + 200) == 365,
        days_in_year(400 * k + 300) == 365,
        forall|r: int| 0 < r < 100 && r % 4 == 0 ==> days_in_year(#[trigger] (100 * k + r)) == 366,
        forall|r: int| 0 < r < 100 && r % 4 != 0 ==> days_in_year(#[trigger] (100 * k + r)) == 365,
        days_in_month(400 * k, 2) == 29,
        days_in_month(400 * k + 100, 2) == 28,
{
}

/// The first day of a month comes after the last day of the month before, and the
/// first day of a year after the 31st of December.
pub proof fn law_days_follow_each_other(n: int, date: Date)
    requires
        is_date(n, date),
    ensures
        date.day < days_in_month(date.year, date.month) ==> is_date(
            n + 1,
            Date { year: date.year, month: date.month, day: date.day + 1 },
        ),
        date.day == days_in_month(date.year, date.month) && date.month < 12 ==> is_date(
            n + 1,
            Date { year: date.year, month: date.month + 1, day: 1 },
        ),
        date.month == 12 && date.day == 31 ==> is_date(
            n + 1,
            Date { year: date.year + 1, month: 1, day: 1 },
        ),
        is_date(0, Date { year: 1970, month: 1, day: 1 }),
{
    lemma_months(date.year);
}

} // verus!
