//! Numbers for people to read.

use vstd::prelude::*;

use crate::digits::{decimal, decimal_of};
use crate::text::{chars_of, replace, string_of};

verus! {

// ---------------------------------------------------------------------------
// Durations
// ---------------------------------------------------------------------------

/// A number of units, with the unit's name in the right number.
pub open spec fn counted(n: int, singular: Seq<char>, plural: Seq<char>) -> Seq<char> {
    decimal(n) + " "@ + (if n == 1 {
        singular
    } else {
        plural
    })
}

/// A number of units, and of the next smaller ones where there are any left.
pub open spec fn counted_two(
    n: int,
    singular: Seq<char>,
    plural: Seq<char>,
    rest: int,
    rest_singular: Seq<char>,
    rest_plural: Seq<char>,
) -> Seq<char> {
    if rest == 0 {
        counted(n, singular, plural)
    } else {
        counted(n, singular, plural) + " "@ + counted(rest, rest_singular, rest_plural)
    }
}

/// A duration in the largest unit that fits and at most one more.
pub open spec fn duration_text(t: int) -> Seq<char> {
    if t < 60 {
        counted(t, "second"@, "seconds"@)
    } else if t < 3600 {
        counted_two(t / 60, "minute"@, "minutes"@, t % 60, "second"@, "seconds"@)
    } else if t < 86400 {
        counted_two(t / 3600, "hour"@, "hours"@, (t / 60) % 60, "minute"@, "minutes"@)
    } else {
        counted_two(t / 86400, "day"@, "days"@, (t / 3600) % 24, "hour"@, "hours"@)
    }
}

fn unit(n: u64, singular: &str, plural: &str) -> (r: String)
    ensures
        r@ == counted(n as int, singular@, plural@),
{
    let mut out = decimal_of(n);
    out.append(" ");
    out.append(if n == 1 {
        singular
    } else {
        plural
    });
    out
}

fn two_units(
    n: u64,
    singular: &str,
    plural: &str,
    rest: u64,
    rest_singular: &str,
    rest_plural: &str,
) -> (r: String)
    ensures
        r@ == counted_two(
            n as int,
            singular@,
            plural@,
            rest as int,
            rest_singular@,
            rest_plural@,
        ),
{
    let mut out = unit(n, singular, plural);
    if rest != 0 {
        out.append(" ");
        let more = unit(rest, rest_singular, rest_plural);
        out.append(more.as_str());
    }
    out
}

/// A duration in whole seconds, in the largest unit that fits and at most one
/// more: `45 seconds`, `2 minutes 5 seconds`, `1 hour 30 minutes`.
pub fn duration(total_seconds: u64) -> (r: String)
    ensures
        r@ == duration_text(total_seconds as int),
{
    if total_seconds < 60 {
        return unit(total_seconds, "second", "seconds");
    }
    let minutes: u64 = total_seconds / 60;
    if minutes < 60 {
        return two_units(minutes, "minute", "minutes", total_seconds % 60, "second", "seconds");
    }
    let hours: u64 = minutes / 60;
    if hours < 24 {
        return two_units(hours, "hour", "hours", minutes % 60, "minute", "minutes");
    }
    two_units(hours / 24, "day", "days", hours % 24, "hour", "hours")
}

// ---------------------------------------------------------------------------
// Sizes
// ---------------------------------------------------------------------------

/// The distance between neighbouring numbers of fifty-three significant binary
/// digits around `n`.
pub open spec fn grain(n: int) -> int
    decreases n,
{
    if n < 0x20_0000_0000_0000 {
        1
    } else {
        2 * grain(n / 2)
    }
}

/// The number of fifty-three significant binary digits nearest to `n`; of two
/// at the same distance, the one with the even last digit.
pub open spec fn nearest(n: int) -> int {
    let s = grain(n);
    let q = n / s;
    let r = n % s;
    if 2 * r > s || (2 * r == s && q % 2 == 1) {
        (q + 1) * s
    } else {
        q * s
    }
}

/// How many times 1024 the unit holds that a size is given in: at most four.
pub open spec fn unit_of(bytes: int) -> int {
    if bytes < 0x400 {
        0
    } else if bytes < 0x10_0000 {
        1
    } else if bytes < 0x4000_0000 {
        2
    } else if bytes < 0x100_0000_0000 {
        3
    } else {
        4
    }
}

/// How many bytes the unit `u` has.
pub open spec fn unit_bytes(u: int) -> int {
    if u == 0 {
        1
    } else if u == 1 {
        0x400
    } else if u == 2 {
        0x10_0000
    } else if u == 3 {
        0x4000_0000
    } else {
        0x100_0000_0000
    }
}

/// The name of the unit `u`.
pub open spec fn unit_name(u: int, one: bool) -> Seq<char> {
    if u == 0 {
        if one {
            "byte"@
        } else {
            "bytes"@
        }
    } else if u == 1 {
        if one {
            "kilobyte"@
        } else {
            "kilobytes"@
        }
    } else if u == 2 {
        if one {
            "megabyte"@
        } else {
            "megabytes"@
        }
    } else if u == 3 {
        if one {
            "gigabyte"@
        } else {
            "gigabytes"@
        }
    } else {
        if one {
            "terabyte"@
        } else {
            "terabytes"@
        }
    }
}

/// A size in tenths of its unit, rounded to the nearest; ten times the size is
/// taken with fifty-three significant binary digits.
pub open spec fn tenths(bytes: int) -> int {
    let b = unit_bytes(unit_of(bytes));
    (2 * nearest(10 * nearest(bytes)) + b) / (2 * b)
}

/// A size with at most one decimal place, which is left out where it is zero.
pub open spec fn size_text(bytes: int) -> Seq<char> {
    let u = unit_of(bytes);
    if u == 0 {
        decimal(bytes) + " "@ + unit_name(0, bytes == 1)
    } else {
        let t = tenths(bytes);
        if t % 10 == 0 {
            decimal(t / 10) + " "@ + unit_name(u, t == 10)
        } else {
            decimal(t / 10) + "."@ + decimal(t % 10) + " "@ + unit_name(u, t == 10)
        }
    }
}

pub proof fn lemma_grain(n: int)
    requires
        n >= 0,
    ensures
        grain(n) >= 1,
        n < 0x20_0000_0000_0000 ==> grain(n) == 1,
        n >= 0x20_0000_0000_0000 ==> grain(n) * 0x10_0000_0000_0000 <= n,
    decreases n,
{
    if n >= 0x20_0000_0000_0000 {
        lemma_grain(n / 2);
    }
}

fn grain_of(n: u128) -> (r: u128)
    ensures
        r == grain(n as int),
        r >= 1,
    decreases n,
{
    proof {
        lemma_grain(n as int);
    }
    if n < 0x20_0000_0000_0000 {
        1
    } else {
        let half: u128 = grain_of(n / 2);
        proof {
            lemma_grain(n as int / 2);
        }
        2 * half
    }
}

fn nearest_of(n: u128) -> (r: u128)
    requires
        n < 0x100_0000_0000_0000_0000,
    ensures
        r == nearest(n as int),
        r <= 2 * n,
{
    let s: u128 = grain_of(n);
    proof {
        lemma_grain(n as int);
    }
    let q: u128 = n / s;
    let r: u128 = n % s;
    let ghost (gn, gs, gq) = (n as int, s as int, q as int);
    assert(gq * gs <= gn && 0 <= gq) by (nonlinear_arith)
        requires
            gs >= 1,
            gn >= 0,
            gq == gn / gs,
    ;
    assert((gq + 1) * gs == gq * gs + gs) by (nonlinear_arith);
    if 2 * r > s || (2 * r == s && q % 2 == 1) {
        assert(n >= 0x20_0000_0000_0000) by {
            if n < 0x20_0000_0000_0000 {
                assert(s == 1);
                assert(r == 0) by (nonlinear_arith)
                    requires
                        s == 1,
                        r == n % s,
                ;
            }
        }
        (q + 1) * s
    } else {
        q * s
    }
}

fn name_of_unit(u: u8, one: bool) -> (r: &'static str)
    requires
        1 <= u <= 4,
    ensures
        r@ == unit_name(u as int, one),
{
    if u == 1 {
        if one {
            "kilobyte"
        } else {
            "kilobytes"
        }
    } else if u == 2 {
        if one {
            "megabyte"
        } else {
            "megabytes"
        }
    } else if u == 3 {
        if one {
            "gigabyte"
        } else {
            "gigabytes"
        }
    } else {
        if one {
            "terabyte"
        } else {
            "terabytes"
        }
    }
}

/// A number of bytes in units of 1024, with at most one decimal place: `1 byte`,
/// `512 bytes`, `2.5 megabytes`.
pub fn size(bytes: u64) -> (r: String)
    ensures
        r@ == size_text(bytes as int),
{
    if bytes < 1024 {
        let mut out = decimal_of(bytes);
        out.append(" ");
        out.append(if bytes == 1 {
            "byte"
        } else {
            "bytes"
        });
        return out;
    }
    let (u, b): (u8, u128) = if bytes < 0x10_0000 {
        (1, 0x400)
    } else if bytes < 0x4000_0000 {
        (2, 0x10_0000)
    } else if bytes < 0x100_0000_0000 {
        (3, 0x4000_0000)
    } else {
        (4, 0x100_0000_0000)
    };
    let near: u128 = nearest_of(bytes as u128);
    let ten: u128 = nearest_of(10 * near);
    let t128: u128 = (2 * ten + b) / (2 * b);
    assert(t128 == tenths(bytes as int));
    assert(t128 <= 0xffff_ffff_ffff_ffff) by (nonlinear_arith)
        requires
            b >= 0x400,
            ten <= 40 * 0xffff_ffff_ffff_ffff,
            t128 == (2 * ten + b) / (2 * b),
    ;
    let t: u64 = t128 as u64;
    let mut out = decimal_of(t / 10);
    if t % 10 != 0 {
        out.append(".");
        let d = decimal_of(t % 10);
        out.append(d.as_str());
    }
    out.append(" ");
    out.append(name_of_unit(u, t == 10));
    out
}

// ---------------------------------------------------------------------------
// Counts
// ---------------------------------------------------------------------------

/// Digits in groups of three from the right, with commas between the groups.
pub open spec fn grouped(s: Seq<char>) -> Seq<char>
    decreases s.len(),
{
    if s.len() <= 3 {
        s
    } else {
        grouped(s.take(s.len() - 3)) + ","@ + s.skip(s.len() - 3)
    }
}

fn push_grouped(v: &Vec<char>, to: usize, out: &mut String)
    requires
        to <= v.len(),
    ensures
        final(out)@ == old(out)@ + grouped(v@.take(to as int)),
    decreases to,
{
    let ghost start = out@;
    let ghost part = v@.take(to as int);
    if to <= 3 {
        let piece = string_of(v.as_slice(), 0, to);
        assert(piece@ =~= part);
        out.append(piece.as_str());
    } else {
        push_grouped(v, to - 3, out);
        assert(part.take(to - 3) =~= v@.take(to - 3));
        out.append(",");
        let piece = string_of(v.as_slice(), to - 3, to);
        assert(piece@ =~= part.skip(to - 3));
        out.append(piece.as_str());
        assert(out@ =~= start + (grouped(part.take(to - 3)) + ","@ + part.skip(to - 3)));
    }
}

/// A count with commas between groups of three digits: `12,847`.
pub fn count(n: u64) -> (r: String)
    ensures
        r@ == grouped(decimal(n as int)),
{
    let digits = decimal_of(n);
    let v = chars_of(digits.as_str());
    let mut out = String::new();
    push_grouped(&v, v.len(), &mut out);
    assert(v@.take(v@.len() as int) =~= v@);
    assert(Seq::<char>::empty() + grouped(v@) =~= grouped(v@));
    out
}

// ---------------------------------------------------------------------------
// Laws
// ---------------------------------------------------------------------------

proof fn lemma_replace_add(a: Seq<char>, b: Seq<char>, c: char, by: Seq<char>)
    ensures
        replace(a + b, c, by) == replace(a, c, by) + replace(b, c, by),
    decreases b.len(),
{
    if b.len() == 0 {
        assert(a + b =~= a);
        assert(replace(a, c, by) + replace(b, c, by) =~= replace(a, c, by));
    } else {
        assert((a + b).drop_last() =~= a + b.drop_last());
        assert((a + b).last() == b.last());
        lemma_replace_add(a, b.drop_last(), c, by);
        assert(replace(a + b, c, by) =~= replace(a, c, by) + replace(b, c, by));
    }
}

proof fn lemma_replace_absent(s: Seq<char>, c: char, by: Seq<char>)
    requires
        !s.contains(c),
    ensures
        replace(s, c, by) == s,
    decreases s.len(),
{
    if s.len() > 0 {
        assert(s[s.len() - 1] != c);
        assert(!s.drop_last().contains(c)) by {
            if s.drop_last().contains(c) {
                let i = choose|i: int| 0 <= i < s.len() - 1 && s.drop_last()[i] == c;
                assert(s[i] == c);
            }
        }
        lemma_replace_absent(s.drop_last(), c, by);
        assert(s.drop_last() + seq![s.last()] =~= s);
    }
}

/// Taking the commas out of grouped digits gives the digits back.
pub proof fn groups_only_add_commas(s: Seq<char>)
    requires
        !s.contains(','),
    ensures
        replace(grouped(s), ',', Seq::empty()) == s,
    decreases s.len(),
{
    if s.len() <= 3 {
        lemma_replace_absent(s, ',', Seq::empty());
    } else {
        let a = s.take(s.len() - 3);
        let b = s.skip(s.len() - 3);
        assert(!a.contains(',')) by {
            if a.contains(',') {
                let i = choose|i: int| 0 <= i < a.len() && a[i] == ',';
                assert(s[i] == ',');
            }
        }
        assert(!b.contains(',')) by {
            if b.contains(',') {
                let i = choose|i: int| 0 <= i < b.len() && b[i] == ',';
                assert(s[s.len() - 3 + i] == ',');
            }
        }
        groups_only_add_commas(a);
        lemma_replace_absent(b, ',', Seq::empty());
        lemma_replace_add(grouped(a) + ","@, b, ',', Seq::empty());
        lemma_replace_add(grouped(a), ","@, ',', Seq::empty());
        reveal_strlit(",");
        assert(replace(","@, ',', Seq::<char>::empty()) =~= Seq::empty()) by {
            reveal_with_fuel(replace, 2);
            assert(","@.drop_last() =~= Seq::<char>::empty());
        }
        assert(a + Seq::<char>::empty() + b =~= s);
    }
}

/// Below 2^53 bytes nothing is lost before rounding to tenths.
pub proof fn small_sizes_are_exact(bytes: int)
    requires
        0 <= bytes,
        10 * bytes < 0x20_0000_0000_0000,
    ensures
        tenths(bytes) == (20 * bytes + unit_bytes(unit_of(bytes))) / (2 * unit_bytes(
            unit_of(bytes),
        )),
{
    assert(nearest(bytes) == bytes);
    assert(nearest(10 * bytes) == 10 * bytes);
}

} // verus!
