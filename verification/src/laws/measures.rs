//! How times, durations and sizes are told.

use vstd::prelude::*;

use crate::digits::{decimal, digit, two_digits};
use crate::supports::calendar::{
    day_number, day_of_date, four_digits, http_date, is_date, is_leap, month_len, month_name, stamp,
    weekday_name,
};
use crate::supports::format::{
    duration_text, grain, grouped, nearest, size_text, tenths, unit_name, unit_of,
};
use crate::supports::version::utc;

verus! {

// ---------------------------------------------------------------------------
// Days
// ---------------------------------------------------------------------------

/// Every fourth year is a leap year, save the hundredths that are no four hundredths.
pub proof fn leap_years(k: int)
    ensures
        is_leap(400 * k),
        !is_leap(400 * k + 100) && !is_leap(400 * k + 200) && !is_leap(400 * k + 300),
        k % 25 != 0 ==> is_leap(4 * k),
        !is_leap(4 * k + 1) && !is_leap(4 * k + 2) && !is_leap(4 * k + 3),
{
}

/// How long the months are.
pub proof fn months_have_their_days(y: int)
    ensures
        month_len(y, 1) == 31 && month_len(y, 3) == 31 && month_len(y, 5) == 31 && month_len(y, 7)
            == 31 && month_len(y, 8) == 31 && month_len(y, 10) == 31 && month_len(y, 12) == 31,
        month_len(y, 4) == 30 && month_len(y, 6) == 30 && month_len(y, 9) == 30 && month_len(y, 11)
            == 30,
        month_len(y, 2) == (if is_leap(y) {
            29int
        } else {
            28int
        }),
{
}

/// Days are counted from the first of January 1970, and the day after a day is the next
/// of its month, the first of the next month, or the first of the next year.
pub proof fn days_follow_each_other(y: int, m: int, d: int)
    requires
        y >= 1970,
        1 <= m <= 12,
        1 <= d <= month_len(y, m),
    ensures
        day_number(1970, 1, 1) == 0,
        d < month_len(y, m) ==> day_number(y, m, d + 1) == day_number(y, m, d) + 1,
        d == month_len(y, m) && m < 12 ==> day_number(y, m + 1, 1) == day_number(y, m, d) + 1,
        d == month_len(y, m) && m == 12 ==> day_number(y + 1, 1, 1) == day_number(y, m, d) + 1,
{
    reveal_with_fuel(crate::supports::calendar::days_before_month, 13);
    reveal_with_fuel(crate::supports::calendar::days_before_year, 2);
}

/// The first day of 1970 was a Thursday, and the days of the week follow each other.
pub proof fn weekdays_follow_each_other(t: int)
    requires
        0 <= t,
    ensures
        http_date(0).take(3) == "Thu"@,
        weekday_name((t / 86400 + 4) % 7) == "Sun"@ ==> weekday_name(
            ((t + 86400) / 86400 + 4) % 7,
        ) == "Mon"@,
        weekday_name((t / 86400 + 4) % 7) == "Mon"@ ==> weekday_name(
            ((t + 86400) / 86400 + 4) % 7,
        ) == "Tue"@,
        weekday_name((t / 86400 + 4) % 7) == "Tue"@ ==> weekday_name(
            ((t + 86400) / 86400 + 4) % 7,
        ) == "Wed"@,
        weekday_name((t / 86400 + 4) % 7) == "Wed"@ ==> weekday_name(
            ((t + 86400) / 86400 + 4) % 7,
        ) == "Thu"@,
        weekday_name((t / 86400 + 4) % 7) == "Thu"@ ==> weekday_name(
            ((t + 86400) / 86400 + 4) % 7,
        ) == "Fri"@,
        weekday_name((t / 86400 + 4) % 7) == "Fri"@ ==> weekday_name(
            ((t + 86400) / 86400 + 4) % 7,
        ) == "Sat"@,
        weekday_name((t / 86400 + 4) % 7) == "Sat"@ ==> weekday_name(
            ((t + 86400) / 86400 + 4) % 7,
        ) == "Sun"@,
{
    reveal_strlit("Sun");
    reveal_strlit("Mon");
    reveal_strlit("Tue");
    reveal_strlit("Wed");
    reveal_strlit("Thu");
    reveal_strlit("Fri");
    reveal_strlit("Sat");
    assert("Sun"@[0] == 'S' && "Sun"@[1] == 'u');
    assert("Mon"@[0] == 'M');
    assert("Tue"@[0] == 'T' && "Tue"@[1] == 'u');
    assert("Wed"@[0] == 'W');
    assert("Thu"@[0] == 'T' && "Thu"@[1] == 'h');
    assert("Fri"@[0] == 'F');
    assert("Sat"@[0] == 'S' && "Sat"@[1] == 'a');
    assert((t + 86400) / 86400 == t / 86400 + 1);
    let w = (t / 86400 + 4) % 7;
    assert(((t + 86400) / 86400 + 4) % 7 == (if w == 6 {
        0int
    } else {
        w + 1
    }));
    assert(weekday_name((0int / 86400 + 4) % 7) == "Thu"@);
    assert(http_date(0).take(3) =~= "Thu"@);
}

/// The name of a month.
pub open spec fn short_name(m: int) -> Seq<char> {
    if m == 1 {
        seq!['J', 'a', 'n']
    } else if m == 2 {
        seq!['F', 'e', 'b']
    } else if m == 3 {
        seq!['M', 'a', 'r']
    } else if m == 4 {
        seq!['A', 'p', 'r']
    } else if m == 5 {
        seq!['M', 'a', 'y']
    } else if m == 6 {
        seq!['J', 'u', 'n']
    } else if m == 7 {
        seq!['J', 'u', 'l']
    } else if m == 8 {
        seq!['A', 'u', 'g']
    } else if m == 9 {
        seq!['S', 'e', 'p']
    } else if m == 10 {
        seq!['O', 'c', 't']
    } else if m == 11 {
        seq!['N', 'o', 'v']
    } else {
        seq!['D', 'e', 'c']
    }
}

/// Two digits of a number below a hundred.
pub open spec fn pair(n: int) -> Seq<char> {
    seq![digit(n / 10), digit(n % 10)]
}

proof fn lemma_pair(n: int)
    requires
        0 <= n < 100,
    ensures
        two_digits(n) == pair(n),
{
    reveal_with_fuel(crate::digits::written, 3);
    assert(two_digits(n) =~= pair(n));
}

proof fn lemma_month(m: int)
    requires
        1 <= m <= 12,
    ensures
        month_name(m) == short_name(m),
{
    reveal_strlit("Jan");
    reveal_strlit("Feb");
    reveal_strlit("Mar");
    reveal_strlit("Apr");
    reveal_strlit("May");
    reveal_strlit("Jun");
    reveal_strlit("Jul");
    reveal_strlit("Aug");
    reveal_strlit("Sep");
    reveal_strlit("Oct");
    reveal_strlit("Nov");
    reveal_strlit("Dec");
    assert(month_name(m) =~= short_name(m));
}

/// A moment of a day is told by its date and its time: `Sun, 06 Nov 1994 08:49:37 GMT`.
pub proof fn moments_are_told(y: int, m: int, d: int, hour: int, minute: int, second: int)
    requires
        1970 <= y,
        is_date(y, m, d),
        0 <= hour < 24,
        0 <= minute < 60,
        0 <= second < 60,
    ensures
        ({
            let t = day_number(y, m, d) * 86400 + hour * 3600 + minute * 60 + second;
            &&& http_date(t) == weekday_name((day_number(y, m, d) + 4) % 7) + seq![',', ' '] + pair(
                d,
            ) + seq![' '] + short_name(m) + seq![' '] + decimal(y) + seq![' '] + (pair(hour)
                + seq![':'] + pair(minute) + seq![':'] + pair(second)) + seq![' ', 'G', 'M', 'T']
            &&& utc(t) == four_digits(y) + seq!['-'] + pair(m) + seq!['-'] + pair(d) + seq!['T']
                + pair(hour) + seq![':'] + pair(minute) + seq![':'] + pair(second) + seq!['Z']
        }),
        stamp(y, m, d) == four_digits(y) + seq!['-'] + pair(m) + seq!['-'] + pair(d),
{
    day_of_date(y, m, d);
    let n = day_number(y, m, d);
    let s = hour * 3600 + minute * 60 + second;
    let t = n * 86400 + hour * 3600 + minute * 60 + second;
    assert(t / 86400 == n && t % 86400 == s);
    assert(s / 3600 == hour && (s % 3600) / 60 == minute && s % 60 == second && s / 60 % 60
        == minute);
    lemma_pair(d);
    lemma_pair(m);
    lemma_pair(hour);
    lemma_pair(minute);
    lemma_pair(second);
    lemma_month(m);
    reveal_strlit(", ");
    reveal_strlit(" ");
    reveal_strlit(":");
    reveal_strlit(" GMT");
    reveal_strlit("-");
    reveal_strlit("T");
    reveal_strlit("Z");
    assert(", "@ =~= seq![',', ' ']);
    assert(" "@ =~= seq![' ']);
    assert(":"@ =~= seq![':']);
    assert(" GMT"@ =~= seq![' ', 'G', 'M', 'T']);
    assert("-"@ =~= seq!['-']);
    assert("T"@ =~= seq!['T']);
    assert("Z"@ =~= seq!['Z']);
}

// ---------------------------------------------------------------------------
// Durations
// ---------------------------------------------------------------------------

/// A number of things, with the word for one or for many.
pub open spec fn of_them(n: int, one: Seq<char>, many: Seq<char>) -> Seq<char> {
    decimal(n) + seq![' '] + (if n == 1 {
        one
    } else {
        many
    })
}

/// A duration is told in its two largest units, and in one where the smaller is zero.
pub proof fn durations_are_told_in_two_units(a: int, b: int)
    requires
        0 <= a,
        0 <= b,
    ensures
        a < 60 ==> duration_text(a) == of_them(a, "second"@, "seconds"@),
        0 < a < 60 && 0 < b < 60 ==> duration_text(a * 60 + b) == of_them(
            a,
            "minute"@,
            "minutes"@,
        ) + seq![' '] + of_them(b, "second"@, "seconds"@),
        0 < a < 60 ==> duration_text(a * 60) == of_them(a, "minute"@, "minutes"@),
        0 < a < 24 && 0 < b < 60 ==> duration_text(a * 3600 + b * 60) == of_them(
            a,
            "hour"@,
            "hours"@,
        ) + seq![' '] + of_them(b, "minute"@, "minutes"@),
        0 < a < 24 ==> duration_text(a * 3600) == of_them(a, "hour"@, "hours"@),
        0 < a && 0 < b < 24 ==> duration_text(a * 86400 + b * 3600) == of_them(a, "day"@, "days"@)
            + seq![' '] + of_them(b, "hour"@, "hours"@),
        0 < a ==> duration_text(a * 86400) == of_them(a, "day"@, "days"@),
{
    reveal_strlit(" ");
    assert(" "@ =~= seq![' ']);
    if 0 < a < 60 && 0 < b < 60 {
        assert((a * 60 + b) / 60 == a && (a * 60 + b) % 60 == b);
    }
    if 0 < a < 60 {
        assert((a * 60) / 60 == a && (a * 60) % 60 == 0);
    }
    if 0 < a < 24 && 0 < b < 60 {
        let t = a * 3600 + b * 60;
        assert(t / 3600 == a && (t / 60) % 60 == b);
    }
    if 0 < a < 24 {
        let t = a * 3600;
        assert(t / 3600 == a && (t / 60) % 60 == 0);
    }
    if 0 < a && 0 < b < 24 {
        let t = a * 86400 + b * 3600;
        assert(t / 86400 == a && (t / 3600) % 24 == b);
    }
    if 0 < a {
        let t = a * 86400;
        assert(t / 86400 == a && (t / 3600) % 24 == 0);
    }
}

// ---------------------------------------------------------------------------
// Sizes
// ---------------------------------------------------------------------------

proof fn lemma_exact(n: int)
    requires
        0 <= n < 0x20_0000_0000_0000,
    ensures
        nearest(n) == n,
{
    assert(grain(n) == 1);
    assert(n / 1 == n && n % 1 == 0) by (nonlinear_arith);
}

/// A size is told in the largest unit that it reaches: a whole number of units without a
/// point, and a unit and a half as `1.5`.
pub proof fn sizes_are_told_in_their_unit(k: int)
    requires
        0 <= k < 1024,
    ensures
        size_text(k) == of_them(k, "byte"@, "bytes"@),
        k > 0 ==> size_text(k * 0x400) == of_them(k, "kilobyte"@, "kilobytes"@),
        k > 0 ==> size_text(k * 0x10_0000) == of_them(k, "megabyte"@, "megabytes"@),
        k > 0 ==> size_text(k * 0x4000_0000) == of_them(k, "gigabyte"@, "gigabytes"@),
        k > 0 ==> size_text(k * 0x100_0000_0000) == of_them(k, "terabyte"@, "terabytes"@)
            || 10 * k * 0x100_0000_0000 >= 0x20_0000_0000_0000,
        k > 0 ==> size_text(k * 0x400 + 0x200) == decimal(k) + seq!['.', '5'] + seq![' ']
            + "kilobytes"@,
        k > 0 ==> size_text(k * 0x10_0000 + 0x8_0000) == decimal(k) + seq!['.', '5'] + seq![' ']
            + "megabytes"@,
{
    reveal_strlit(" ");
    reveal_strlit(".");
    assert(" "@ =~= seq![' ']);
    assert("."@ =~= seq!['.']);
    if k > 0 {
        lemma_whole(k, 1, 0x400);
        lemma_whole(k, 2, 0x10_0000);
        lemma_whole(k, 3, 0x4000_0000);
        if 10 * k * 0x100_0000_0000 < 0x20_0000_0000_0000 {
            lemma_whole(k, 4, 0x100_0000_0000);
        }
        lemma_half(k, 0x400);
        lemma_half(k, 0x10_0000);
    }
}

proof fn lemma_whole(k: int, u: int, unit: int)
    requires
        0 < k < 1024,
        (u == 1 && unit == 0x400) || (u == 2 && unit == 0x10_0000) || (u == 3 && unit
            == 0x4000_0000) || (u == 4 && unit == 0x100_0000_0000),
        10 * (k * unit) < 0x20_0000_0000_0000,
    ensures
        unit_of(k * unit) == u,
        tenths(k * unit) == 10 * k,
        size_text(k * unit) == decimal(k) + " "@ + unit_name(u, k == 1),
{
    let n = k * unit;
    assert(unit_of(n) == u);
    lemma_exact(n);
    lemma_exact(10 * n);
    assert((2 * (10 * n) + unit) / (2 * unit) == 10 * k) by (nonlinear_arith)
        requires
            n == k * unit,
            unit > 0,
    ;
    assert((10 * k) / 10 == k && (10 * k) % 10 == 0);
}

proof fn lemma_half(k: int, unit: int)
    requires
        0 < k < 1024,
        unit == 0x400 || unit == 0x10_0000,
    ensures
        unit == 0x400 ==> size_text(k * unit + unit / 2) == decimal(k) + seq!['.', '5'] + seq![' ']
            + "kilobytes"@,
        unit == 0x10_0000 ==> size_text(k * unit + unit / 2) == decimal(k) + seq!['.', '5'] + seq![
            ' ',
        ] + "megabytes"@,
{
    let n = k * unit + unit / 2;
    lemma_exact(n);
    lemma_exact(10 * n);
    let t = 10 * k + 5;
    if unit == 0x400 {
        assert(unit_of(n) == 1);
        assert((2 * (10 * n) + 0x400) / 2048 == t);
    } else {
        assert(unit_of(n) == 2);
        assert((2 * (10 * n) + 0x10_0000) / 2097152 == t);
    }
    assert(tenths(n) == t);
    assert(t / 10 == k && t % 10 == 5);
    reveal_with_fuel(crate::digits::written, 2);
    reveal_strlit(" ");
    reveal_strlit(".");
    assert(decimal(5) =~= seq!['5']);
    assert(" "@ =~= seq![' ']);
    assert("."@ + decimal(5) =~= seq!['.', '5']);
    assert(decimal(k) + "."@ + decimal(5) =~= decimal(k) + seq!['.', '5']);
}

/// Long numbers have a comma before each three digits from the end.
pub proof fn digits_come_in_threes(front: Seq<char>, a: char, b: char, c: char)
    ensures
        front.len() == 0 ==> grouped(seq![a, b, c]) == seq![a, b, c],
        front.len() > 0 ==> grouped(front + seq![a, b, c]) == grouped(front) + seq![',', a, b, c],
        front.len() <= 3 ==> grouped(front) == front,
{
    reveal_strlit(",");
    let s = front + seq![a, b, c];
    if front.len() > 0 {
        assert(s.take(s.len() - 3) =~= front);
        assert(s.skip(s.len() - 3) =~= seq![a, b, c]);
        assert(","@ + seq![a, b, c] =~= seq![',', a, b, c]);
        assert(grouped(front) + ","@ + seq![a, b, c] =~= grouped(front) + seq![',', a, b, c]);
    }
}

} // verus!
