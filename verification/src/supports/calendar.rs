//! Dates of the Gregorian calendar, and times as text.

use vstd::prelude::*;

use crate::digits::{decimal, decimal_of, two_digits, two_digits_of};

verus! {

// ---------------------------------------------------------------------------
// The calendar
// ---------------------------------------------------------------------------

/// Whether `y` is a leap year.
pub open spec fn is_leap(y: int) -> bool {
    (y % 4 == 0 && y % 100 != 0) || y % 400 == 0
}

/// How many days the year `y` has.
pub open spec fn year_len(y: int) -> int {
    if is_leap(y) {
        366
    } else {
        365
    }
}

/// How many days the month `m` (1 to 12) of the year `y` has.
pub open spec fn month_len(y: int, m: int) -> int {
    if m == 2 {
        if is_leap(y) {
            29
        } else {
            28
        }
    } else if m == 4 || m == 6 || m == 9 || m == 11 {
        30
    } else {
        31
    }
}

/// Whether the calendar has the date.
pub open spec fn is_date(y: int, m: int, d: int) -> bool {
    1 <= m <= 12 && 1 <= d <= month_len(y, m)
}

/// How many days lie between the start of 1970 and that of the year `y`.
pub open spec fn days_before_year(y: int) -> int
    decreases y - 1970,
{
    if y <= 1970 {
        0
    } else {
        days_before_year(y - 1) + year_len(y - 1)
    }
}

/// How many days of the year `y` lie before the month `m`.
pub open spec fn days_before_month(y: int, m: int) -> int
    decreases m,
{
    if m <= 1 {
        0
    } else {
        days_before_month(y, m - 1) + month_len(y, m - 1)
    }
}

/// The number of a date, counted from the first of January 1970.
pub open spec fn day_number(y: int, m: int, d: int) -> int {
    days_before_year(y) + days_before_month(y, m) + d - 1
}

/// The year in which day `n`, counted from the start of `y`, lies.
pub open spec fn year_from(n: int, y: int) -> int
    decreases n,
{
    if n < year_len(y) {
        y
    } else {
        year_from(n - year_len(y), y + 1)
    }
}

/// The month of the year `y` in which day `n`, counted from the start of `m`,
/// lies.
pub open spec fn month_from(y: int, n: int, m: int) -> int
    decreases n,
{
    if n < month_len(y, m) || m >= 12 {
        m
    } else {
        month_from(y, n - month_len(y, m), m + 1)
    }
}

/// The date of day `n`: year, month and day of the month.
pub open spec fn date(n: int) -> (int, int, int) {
    let y = year_from(n, 1970);
    let in_year = n - days_before_year(y);
    let m = month_from(y, in_year, 1);
    (y, m, in_year - days_before_month(y, m) + 1)
}

proof fn lemma_year_from(n: int, y: int)
    requires
        n >= 0,
        y >= 1970,
    ensures
        year_from(n, y) >= y,
        0 <= n + days_before_year(y) - days_before_year(year_from(n, y)) < year_len(
            year_from(n, y),
        ),
    decreases n,
{
    if n >= year_len(y) {
        lemma_year_from(n - year_len(y), y + 1);
    }
}

proof fn lemma_month_from(y: int, n: int, m: int)
    requires
        n >= 0,
        1 <= m <= 12,
        n + days_before_month(y, m) < year_len(y),
    ensures
        m <= month_from(y, n, m) <= 12,
        0 <= n + days_before_month(y, m) - days_before_month(y, month_from(y, n, m)) < month_len(
            y,
            month_from(y, n, m),
        ),
    decreases n,
{
    lemma_year_of_months(y);
    if n < month_len(y, m) {
    } else if m >= 12 {
        assert(days_before_month(y, 13) == days_before_month(y, 12) + month_len(y, 12));
    } else {
        lemma_month_from(y, n - month_len(y, m), m + 1);
    }
}

/// The months of a year make up the year.
proof fn lemma_year_of_months(y: int)
    ensures
        days_before_month(y, 13) == year_len(y),
        days_before_month(y, 1) == 0,
        days_before_month(y, 2) == 31,
        days_before_month(y, 3) == 31 + month_len(y, 2),
        days_before_month(y, 4) == 62 + month_len(y, 2),
        days_before_month(y, 5) == 92 + month_len(y, 2),
        days_before_month(y, 6) == 123 + month_len(y, 2),
        days_before_month(y, 7) == 153 + month_len(y, 2),
        days_before_month(y, 8) == 184 + month_len(y, 2),
        days_before_month(y, 9) == 215 + month_len(y, 2),
        days_before_month(y, 10) == 245 + month_len(y, 2),
        days_before_month(y, 11) == 276 + month_len(y, 2),
        days_before_month(y, 12) == 306 + month_len(y, 2),
{
    reveal_with_fuel(days_before_month, 14);
}

/// Every day has a date, and the number of that date is the day.
pub proof fn date_of_day(n: int)
    requires
        n >= 0,
    ensures
        date(n).0 >= 1970,
        is_date(date(n).0, date(n).1, date(n).2),
        day_number(date(n).0, date(n).1, date(n).2) == n,
{
    lemma_year_from(n, 1970);
    let y = date(n).0;
    lemma_month_from(y, n - days_before_year(y), 1);
}

proof fn lemma_years_ascend(a: int, b: int)
    requires
        1970 <= a < b,
    ensures
        days_before_year(a) + year_len(a) <= days_before_year(b),
    decreases b,
{
    if a + 1 < b {
        lemma_years_ascend(a, b - 1);
    }
}

proof fn lemma_months_ascend(y: int, a: int, b: int)
    requires
        1 <= a < b,
    ensures
        days_before_month(y, a) + month_len(y, a) <= days_before_month(y, b),
    decreases b,
{
    if a + 1 < b {
        lemma_months_ascend(y, a, b - 1);
    }
}

/// A date lies within its year.
proof fn lemma_in_year(y: int, m: int, d: int)
    requires
        is_date(y, m, d),
    ensures
        0 <= days_before_month(y, m) + d - 1 < year_len(y),
{
    lemma_year_of_months(y);
    if m < 13 {
        lemma_months_ascend(y, m, 13);
    }
    if m > 1 {
        lemma_months_ascend(y, 1, m);
    }
}

/// Different dates have different numbers.
pub proof fn day_numbers_differ(y: int, m: int, d: int, z: int, n: int, e: int)
    requires
        y >= 1970,
        z >= 1970,
        is_date(y, m, d),
        is_date(z, n, e),
        day_number(y, m, d) == day_number(z, n, e),
    ensures
        (y, m, d) == (z, n, e),
{
    lemma_in_year(y, m, d);
    lemma_in_year(z, n, e);
    if y < z {
        lemma_years_ascend(y, z);
    } else if z < y {
        lemma_years_ascend(z, y);
    } else if m < n {
        lemma_months_ascend(y, m, n);
    } else if n < m {
        lemma_months_ascend(y, n, m);
    }
}

/// The date of the number of a date is the date.
pub proof fn day_of_date(y: int, m: int, d: int)
    requires
        y >= 1970,
        is_date(y, m, d),
    ensures
        day_number(y, m, d) >= 0,
        date(day_number(y, m, d)) == (y, m, d),
{
    lemma_in_year(y, m, d);
    if y > 1970 {
        lemma_years_ascend(1970, y);
    }
    let n = day_number(y, m, d);
    date_of_day(n);
    day_numbers_differ(y, m, d, date(n).0, date(n).1, date(n).2);
}

// ---------------------------------------------------------------------------
// From days to dates
// ---------------------------------------------------------------------------

fn leap(y: i64) -> (r: bool)
    requires
        y >= 1970,
    ensures
        r == is_leap(y as int),
{
    (y % 4 == 0 && y % 100 != 0) || y % 400 == 0
}

fn length_of_month(y: i64, m: u32) -> (r: i64)
    requires
        y >= 1970,
        1 <= m <= 12,
    ensures
        r == month_len(y as int, m as int),
        28 <= r <= 31,
{
    if m == 2 {
        if leap(y) {
            29
        } else {
            28
        }
    } else if m == 4 || m == 6 || m == 9 || m == 11 {
        30
    } else {
        31
    }
}

/// The date of a time, given in seconds since the start of 1970: year, month (1
/// to 12) and day of the month.
pub fn civil_date_from_unix(unix_secs: u64) -> (r: (i64, u32, u32))
    ensures
        (r.0 as int, r.1 as int, r.2 as int) == date(unix_secs as int / 86400),
        1970 <= r.0,
        1 <= r.1 <= 12,
        1 <= r.2 <= 31,
{
    let ghost n = unix_secs as int / 86400;
    let mut days: i64 = (unix_secs / 86400) as i64;
    let mut year: i64 = 1970;
    proof {
        date_of_day(n);
    }
    loop
        invariant
            n == unix_secs as int / 86400,
            0 <= days <= n,
            1970 <= year,
            year <= 1970 + n - days,
            n <= 213503982334601,
            year_from(n, 1970) == year_from(days as int, year as int),
            days + days_before_year(year as int) == n,
        ensures
            0 <= days < year_len(year as int),
            1970 <= year <= 1970 + n,
            year == year_from(n, 1970),
            days + days_before_year(year as int) == n,
        decreases days,
    {
        let len: i64 = if leap(year) {
            366
        } else {
            365
        };
        if days < len {
            break;
        }
        days = days - len;
        year = year + 1;
    }
    let ghost y = year as int;
    let ghost in_year = days as int;
    proof {
        lemma_month_from(y, in_year, 1);
    }
    let mut month: u32 = 1;
    while month < 12 && days >= length_of_month(year, month)
        invariant
            y == year,
            1970 <= year,
            1 <= month <= 12,
            0 <= days,
            days + days_before_month(y, month as int) == in_year,
            month_from(y, in_year, 1) == month_from(y, days as int, month as int),
        decreases 12 - month,
    {
        days = days - length_of_month(year, month);
        month = month + 1;
    }
    assert(month == month_from(y, in_year, 1));
    (year, month, (days + 1) as u32)
}

/// The cycle of four hundred years, each beginning in March, that a month lies in.
pub open spec fn era_of(year: int, month: int) -> int {
    if month <= 2 {
        (year - 1) / 400
    } else {
        year / 400
    }
}

/// The number that the closed formula gives a date, for any year: the days from
/// the first of March of year zero, less those until 1970.
pub open spec fn civil_days(year: int, month: int, day: int) -> int {
    let y = if month <= 2 {
        year - 1
    } else {
        year
    };
    let era = era_of(year, month);
    let of_era = y - era * 400;
    let mp = (month + 9) % 12;
    let of_year = (153 * mp + 2) / 5 + day - 1;
    era * 146097 + of_era * 365 + of_era / 4 - of_era / 100 + of_year - 719468
}

/// The number of days from the first of January 1970 to a date.
pub fn days_from_civil(year: i64, month: u32, day: u32) -> (r: i64)
    requires
        i64::MIN <= era_of(year as int, month as int) * 146097,
        i64::MIN <= civil_days(year as int, month as int, day as int),
        civil_days(year as int, month as int, day as int) + 719468 <= i64::MAX,
    ensures
        r == civil_days(year as int, month as int, day as int),
{
    let y: i64 = if month <= 2 {
        year - 1
    } else {
        year
    };
    let era: i64 = if y >= 0 {
        y / 400
    } else {
        let q: i64 = (399 - y) / 400;
        -q
    };
    assert(era == y as int / 400);
    let of_era: i64 = y - era * 400;
    let mp: i64 = (month as i64 + 9) % 12;
    let of_year: i64 = (153 * mp + 2) / 5 + day as i64 - 1;
    let of_days: i64 = of_era * 365 + of_era / 4 - of_era / 100 + of_year;
    era * 146097 + of_days - 719468
}

proof fn lemma_new_year(y: int)
    requires
        y >= 1970,
    ensures
        civil_days(y, 1, 1) == days_before_year(y),
    decreases y,
{
    if y > 1970 {
        lemma_new_year(y - 1);
        let a = y - 1;
        let b = y - 2;
        assert(civil_days(y, 1, 1) == 365 * a + a / 4 - a / 100 + a / 400 + 306 - 719468);
        assert(civil_days(y - 1, 1, 1) == 365 * b + b / 4 - b / 100 + b / 400 + 306 - 719468);
    }
}

/// The closed formula gives every date its number.
#[verifier::spinoff_prover]
#[verifier::rlimit(40)]
pub proof fn formula_counts_days(y: int, m: int, d: int)
    requires
        y >= 1970,
        is_date(y, m, d),
    ensures
        civil_days(y, m, d) == day_number(y, m, d),
{
    lemma_new_year(y);
    lemma_year_of_months(y);
    if m > 2 {
        let a = y - 1;
        assert(y / 4 - a / 4 == if y % 4 == 0 { 1int } else { 0 });
        assert(y / 100 - a / 100 == if y % 100 == 0 { 1int } else { 0 });
        assert(y / 400 - a / 400 == if y % 400 == 0 { 1int } else { 0 });
        assert(civil_days(y, 1, 1) == 365 * a + a / 4 - a / 100 + a / 400 + 306 - 719468);
        assert(civil_days(y, m, d) == 365 * y + y / 4 - y / 100 + y / 400 + (153 * (m - 3) + 2) / 5
            + d - 1 - 719468);
    }
}

/// The two ways round: the formula undoes the search for a date, for every time
/// since 1970.
pub proof fn formula_undoes_search(n: int)
    requires
        n >= 0,
    ensures
        civil_days(date(n).0, date(n).1, date(n).2) == n,
{
    date_of_day(n);
    formula_counts_days(date(n).0, date(n).1, date(n).2);
}

// ---------------------------------------------------------------------------
// Text
// ---------------------------------------------------------------------------

/// The short name of a day of the week; Sunday is zero.
pub open spec fn weekday_name(w: int) -> Seq<char> {
    if w == 0 {
        "Sun"@
    } else if w == 1 {
        "Mon"@
    } else if w == 2 {
        "Tue"@
    } else if w == 3 {
        "Wed"@
    } else if w == 4 {
        "Thu"@
    } else if w == 5 {
        "Fri"@
    } else {
        "Sat"@
    }
}

fn name_of_weekday(w: u64) -> (r: &'static str)
    requires
        w < 7,
    ensures
        r@ == weekday_name(w as int),
{
    if w == 0 {
        "Sun"
    } else if w == 1 {
        "Mon"
    } else if w == 2 {
        "Tue"
    } else if w == 3 {
        "Wed"
    } else if w == 4 {
        "Thu"
    } else if w == 5 {
        "Fri"
    } else {
        "Sat"
    }
}

/// The short name of a month; January is one.
pub open spec fn month_name(m: int) -> Seq<char> {
    if m == 1 {
        "Jan"@
    } else if m == 2 {
        "Feb"@
    } else if m == 3 {
        "Mar"@
    } else if m == 4 {
        "Apr"@
    } else if m == 5 {
        "May"@
    } else if m == 6 {
        "Jun"@
    } else if m == 7 {
        "Jul"@
    } else if m == 8 {
        "Aug"@
    } else if m == 9 {
        "Sep"@
    } else if m == 10 {
        "Oct"@
    } else if m == 11 {
        "Nov"@
    } else {
        "Dec"@
    }
}

fn name_of_month(m: u32) -> (r: &'static str)
    requires
        1 <= m <= 12,
    ensures
        r@ == month_name(m as int),
{
    if m == 1 {
        "Jan"
    } else if m == 2 {
        "Feb"
    } else if m == 3 {
        "Mar"
    } else if m == 4 {
        "Apr"
    } else if m == 5 {
        "May"
    } else if m == 6 {
        "Jun"
    } else if m == 7 {
        "Jul"
    } else if m == 8 {
        "Aug"
    } else if m == 9 {
        "Sep"
    } else if m == 10 {
        "Oct"
    } else if m == 11 {
        "Nov"
    } else {
        "Dec"
    }
}

/// The time of day of `s` seconds after midnight.
pub open spec fn clock(s: int) -> Seq<char> {
    two_digits(s / 3600) + ":"@ + two_digits((s % 3600) / 60) + ":"@ + two_digits(s % 60)
}

/// A time in the form that HTTP headers use.
pub open spec fn http_date(t: int) -> Seq<char> {
    let n = t / 86400;
    let d = date(n);
    weekday_name((n + 4) % 7) + ", "@ + two_digits(d.2) + " "@ + month_name(d.1) + " "@ + decimal(
        d.0,
    ) + " "@ + clock(t % 86400) + " GMT"@
}

fn clock_of(s: u64) -> (r: String)
    ensures
        r@ == clock(s as int),
{
    let mut out = two_digits_of(s / 3600);
    out.append(":");
    let m = two_digits_of((s % 3600) / 60);
    out.append(m.as_str());
    out.append(":");
    let c = two_digits_of(s % 60);
    out.append(c.as_str());
    out
}

/// A time in the form that HTTP headers use.
pub fn format_http_date(unix_secs: u64) -> (r: String)
    ensures
        r@ == http_date(unix_secs as int),
{
    let days: u64 = unix_secs / 86400;
    let (y, m, d) = civil_date_from_unix(unix_secs);
    let mut out = name_of_weekday((days + 4) % 7).to_owned();
    out.append(", ");
    let day = two_digits_of(d as u64);
    out.append(day.as_str());
    out.append(" ");
    out.append(name_of_month(m));
    out.append(" ");
    let year = decimal_of(y as u64);
    out.append(year.as_str());
    out.append(" ");
    let time = clock_of(unix_secs % 86400);
    out.append(time.as_str());
    out.append(" GMT");
    out
}

/// A date as year, month and day, each with its leading zeros.
pub open spec fn stamp(y: int, m: int, d: int) -> Seq<char> {
    four_digits(y) + "-"@ + two_digits(m) + "-"@ + two_digits(d)
}

/// `n` in decimal with at least four digits.
pub open spec fn four_digits(n: int) -> Seq<char> {
    if n < 10 {
        "000"@ + decimal(n)
    } else if n < 100 {
        "00"@ + decimal(n)
    } else if n < 1000 {
        "0"@ + decimal(n)
    } else {
        decimal(n)
    }
}

/// `n` in decimal with at least four digits.
pub fn four_digits_of(n: u64) -> (r: String)
    ensures
        r@ == four_digits(n as int),
{
    let d = decimal_of(n);
    if n >= 1000 {
        return d;
    }
    let mut out = if n < 10 {
        "000".to_owned()
    } else if n < 100 {
        "00".to_owned()
    } else {
        "0".to_owned()
    };
    out.append(d.as_str());
    out
}

/// A date as year, month and day, each with its leading zeros.
pub fn stamp_of(y: u64, m: u64, d: u64) -> (r: String)
    ensures
        r@ == stamp(y as int, m as int, d as int),
{
    let mut out = four_digits_of(y);
    out.append("-");
    let month = two_digits_of(m);
    out.append(month.as_str());
    out.append("-");
    let day = two_digits_of(d);
    out.append(day.as_str());
    out
}

} // verus!
