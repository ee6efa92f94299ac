//! Whole numbers as text: decimal and hexadecimal, written and read.

use vstd::prelude::*;

use crate::text::chars_of;

verus! {

// ---------------------------------------------------------------------------
// Writing
// ---------------------------------------------------------------------------

/// The lower-case digit of value `d`, for `d` below sixteen.
pub open spec fn digit(d: int) -> char {
    if d < 10 {
        (48 + d) as u8 as char
    } else {
        (87 + d) as u8 as char
    }
}

/// `n` in base `radix`, without leading zeros.
pub open spec fn written(n: int, radix: int) -> Seq<char>
    decreases n,
{
    if n < radix || radix < 2 {
        seq![digit(n)]
    } else {
        proof {
            assert(0 <= n / radix < n) by (nonlinear_arith)
                requires
                    n >= radix,
                    radix >= 2,
            ;
        }
        written(n / radix, radix).push(digit(n % radix))
    }
}

/// `n` in decimal.
pub open spec fn decimal(n: int) -> Seq<char> {
    written(n, 10)
}

/// `n` in hexadecimal, with lower-case letters.
pub open spec fn hex(n: int) -> Seq<char> {
    written(n, 16)
}

/// The digit of value `d`.
pub fn digit_char(d: u8) -> (r: char)
    requires
        d < 16,
    ensures
        r == digit(d as int),
{
    if d < 10 {
        (48 + d) as char
    } else {
        (87 + d) as char
    }
}

fn write_digits(n: u64, radix: u64, out: &mut String)
    requires
        2 <= radix <= 16,
    ensures
        final(out)@ == old(out)@ + written(n as int, radix as int),
    decreases n,
{
    let ghost start = out@;
    if n >= radix {
        assert(n / radix < n) by (nonlinear_arith)
            requires
                n >= radix,
                radix >= 2,
        ;
        write_digits(n / radix, radix, out);
        assert(start + written(n as int, radix as int) =~= (start + written(
            n as int / radix as int,
            radix as int,
        )).push(digit(n as int % radix as int)));
    } else {
        assert(n % radix == n) by (nonlinear_arith)
            requires
                n < radix,
        ;
        assert(start + written(n as int, radix as int) =~= start.push(digit(n as int)));
    }
    assert(n % radix < radix) by (nonlinear_arith)
        requires
            radix > 0,
    ;
    out.push(digit_char((n % radix) as u8));
}

/// `n` in decimal.
pub fn decimal_of(n: u64) -> (r: String)
    ensures
        r@ == decimal(n as int),
{
    let mut out = String::new();
    write_digits(n, 10, &mut out);
    assert(Seq::<char>::empty() + decimal(n as int) =~= decimal(n as int));
    out
}

/// `n` in hexadecimal.
pub fn hex_of(n: u64) -> (r: String)
    ensures
        r@ == hex(n as int),
{
    let mut out = String::new();
    write_digits(n, 16, &mut out);
    assert(Seq::<char>::empty() + hex(n as int) =~= hex(n as int));
    out
}

/// `n` in decimal with at least two digits.
pub open spec fn two_digits(n: int) -> Seq<char> {
    if n < 10 {
        seq!['0'] + decimal(n)
    } else {
        decimal(n)
    }
}

/// `n` in decimal with at least two digits.
pub fn two_digits_of(n: u64) -> (r: String)
    ensures
        r@ == two_digits(n as int),
{
    if n < 10 {
        let mut out = String::new();
        out.push('0');
        assert(out@ =~= seq!['0']);
        let d = decimal_of(n);
        out.append(d.as_str());
        out
    } else {
        decimal_of(n)
    }
}

/// A signed number in decimal, with a minus sign where it is negative.
pub open spec fn signed(n: int) -> Seq<char> {
    if n < 0 {
        seq!['-'] + decimal(-n)
    } else {
        decimal(n)
    }
}

// ---------------------------------------------------------------------------
// Reading
// ---------------------------------------------------------------------------

/// The value of a digit in base `radix` (at most sixteen, either case).
pub open spec fn digit_value(c: char, radix: int) -> Option<int> {
    let u = c as u32;
    let v = if 48 <= u <= 57 {
        u - 48
    } else if 97 <= u <= 102 {
        u - 87
    } else if 65 <= u <= 70 {
        u - 55
    } else {
        16
    };
    if v < radix && v < 16 {
        Some(v)
    } else {
        None
    }
}

/// The value of a run of digits; nothing where some character is no digit.
pub open spec fn value(s: Seq<char>, radix: int) -> Option<int>
    decreases s.len(),
{
    if s.len() == 0 {
        Some(0)
    } else {
        match (value(s.drop_last(), radix), digit_value(s.last(), radix)) {
            (Some(v), Some(d)) => Some(v * radix + d),
            _ => None,
        }
    }
}

/// The digits of a number, after an optional plus sign.
pub open spec fn after_plus(s: Seq<char>) -> Seq<char> {
    if s.len() > 0 && s[0] == '+' {
        s.skip(1)
    } else {
        s
    }
}

/// The number that `s` writes in base `radix`, if it is at most `max`: an
/// optional plus sign and at least one digit.
pub open spec fn number(s: Seq<char>, radix: int, max: int) -> Option<int> {
    let t = after_plus(s);
    match value(t, radix) {
        Some(v) => if t.len() > 0 && v <= max {
            Some(v)
        } else {
            None
        },
        None => None,
    }
}

/// A longer run of digits has no smaller value.
pub proof fn lemma_value_grows(s: Seq<char>, i: int, radix: int)
    requires
        0 <= i <= s.len(),
        radix >= 1,
    ensures
        value(s, radix) is Some ==> value(s.take(i), radix) is Some && 0 <= value(s.take(i), radix)->0
            <= value(s, radix)->0,
    decreases s.len(),
{
    if i == s.len() {
        assert(s.take(i) =~= s);
        if s.len() > 0 && value(s, radix) is Some {
            lemma_value_grows(s.drop_last(), s.len() - 1, radix);
            assert(s.drop_last().take(s.len() - 1) =~= s.drop_last());
            let v = value(s.drop_last(), radix)->0;
            assert(v * radix >= 0) by (nonlinear_arith)
                requires
                    v >= 0,
                    radix >= 1,
            ;
        }
    } else if value(s, radix) is Some {
        lemma_value_grows(s.drop_last(), i, radix);
        assert(s.drop_last().take(i) =~= s.take(i));
        let v = value(s.drop_last(), radix)->0;
        assert(v * radix >= v) by (nonlinear_arith)
            requires
                v >= 0,
                radix >= 1,
        ;
    }
}

fn value_of_digit(c: char, radix: u64) -> (r: Option<u64>)
    requires
        radix <= 16,
    ensures
        match r {
            Some(d) => digit_value(c, radix as int) == Some(d as int) && d < radix,
            None => digit_value(c, radix as int) is None,
        },
{
    let u: u32 = c as u32;
    let v: u32 = if 48 <= u && u <= 57 {
        u - 48
    } else if 97 <= u && u <= 102 {
        u - 87
    } else if 65 <= u && u <= 70 {
        u - 55
    } else {
        16
    };
    if (v as u64) < radix && v < 16 {
        Some(v as u64)
    } else {
        None
    }
}

/// The number that `s` writes in base `radix`, if it is at most `max`.
pub fn parse_number(s: &str, radix: u64, max: u64) -> (r: Option<u64>)
    requires
        2 <= radix <= 16,
    ensures
        match r {
            Some(v) => number(s@, radix as int, max as int) == Some(v as int) && v <= max,
            None => number(s@, radix as int, max as int) is None,
        },
{
    let v = chars_of(s);
    let from: usize = if v.len() > 0 && v[0] == '+' {
        1
    } else {
        0
    };
    let ghost t = after_plus(s@);
    assert(t =~= v@.skip(from as int));
    if from == v.len() {
        return None;
    }
    let mut acc: u64 = 0;
    let mut i: usize = from;
    assert(t.take(0) =~= Seq::<char>::empty());
    while i < v.len()
        invariant
            2 <= radix <= 16,
            from <= i <= v@.len(),
            from < v@.len(),
            v@ == s@,
            t == after_plus(s@),
            t == v@.skip(from as int),
            value(t.take(i - from), radix as int) == Some(acc as int),
            acc <= max,
        decreases v@.len() - i,
    {
        let ghost p = t.take(i - from + 1);
        assert(p.drop_last() =~= t.take(i - from));
        assert(p.last() == v@[i as int]);
        proof {
            lemma_value_grows(t, i - from + 1, radix as int);
        }
        match value_of_digit(v[i], radix) {
            None => {
                return None;
            },
            Some(d) => {
                // The next value is over `max` exactly where this test holds.
                if d > max || acc > (max - d) / radix {
                    proof {
                        let a = acc as int;
                        let m = max as int;
                        let g = d as int;
                        let x = radix as int;
                        assert(a * x >= 0) by (nonlinear_arith)
                            requires
                                a >= 0,
                                x >= 0,
                        ;
                        if g <= m {
                            assert(a * x > m - g) by (nonlinear_arith)
                                requires
                                    a > (m - g) / x,
                                    x >= 2,
                                    g <= m,
                            ;
                        }
                        assert(value(p, x) == Some(a * x + g));
                    }
                    return None;
                }
                proof {
                    let a = acc as int;
                    let m = max as int;
                    let g = d as int;
                    let x = radix as int;
                    assert(a * x + g <= m && a * x >= 0) by (nonlinear_arith)
                        requires
                            0 <= a <= (m - g) / x,
                            x >= 2,
                            g <= m,
                    ;
                }
                acc = acc * radix + d;
            },
        }
        i = i + 1;
    }
    assert(t.take(v@.len() - from) =~= t);
    Some(acc)
}

/// The number that `s` writes in decimal, if it fits in sixteen bits.
pub open spec fn number16(s: Seq<char>) -> Option<u16> {
    match number(s, 10, 0xffff) {
        Some(v) => Some(v as u16),
        None => None,
    }
}

/// The number that `s` writes in decimal, if it fits in sixteen bits.
pub fn parse_u16(s: &str) -> (r: Option<u16>)
    ensures
        r == number16(s@),
{
    match parse_number(s, 10, 0xffff) {
        Some(v) => Some(v as u16),
        None => None,
    }
}

/// The number that `s` writes in decimal, if it fits in sixty-four bits.
pub open spec fn number64(s: Seq<char>) -> Option<u64> {
    match number(s, 10, 0xffff_ffff_ffff_ffff) {
        Some(v) => Some(v as u64),
        None => None,
    }
}

/// The number that `s` writes in decimal, if it fits in sixty-four bits.
pub fn parse_u64(s: &str) -> (r: Option<u64>)
    ensures
        r == number64(s@),
{
    parse_number(s, 10, 0xffff_ffff_ffff_ffff)
}

// ---------------------------------------------------------------------------
// Laws
// ---------------------------------------------------------------------------

/// Every digit that is written reads back with its value.
proof fn lemma_digit_round(d: int, radix: int)
    requires
        0 <= d < radix <= 16,
    ensures
        digit_value(digit(d), radix) == Some(d),
        digit(d) != '+',
{
}

/// What is written in base `radix` reads back as the number itself.
pub proof fn written_reads_back(n: int, radix: int)
    requires
        0 <= n,
        2 <= radix <= 16,
    ensures
        value(written(n, radix), radix) == Some(n),
        written(n, radix).len() > 0,
        written(n, radix)[0] != '+',
        number(written(n, radix), radix, n) == Some(n),
    decreases n,
{
    if n < radix {
        lemma_digit_round(n, radix);
        let w = written(n, radix);
        assert(w.drop_last() =~= Seq::<char>::empty());
        assert(value(w.drop_last(), radix) == Some(0int));
        assert(0 * radix == 0) by (nonlinear_arith);
    } else {
        assert(0 <= n / radix < n) by (nonlinear_arith)
            requires
                n >= radix,
                radix >= 2,
        ;
        assert(0 <= n % radix < radix && n == (n / radix) * radix + n % radix) by (nonlinear_arith)
            requires
                n >= 0,
                radix >= 2,
        ;
        written_reads_back(n / radix, radix);
        lemma_digit_round(n % radix, radix);
        let w = written(n, radix);
        assert(w.drop_last() =~= written(n / radix, radix));
    }
    assert(after_plus(written(n, radix)) == written(n, radix));
}

} // verus!
