//! Encodings of responses: which one a client takes, and what is encoded.

use vstd::prelude::*;

use crate::digits::{decimal, decimal_of};
use crate::outside::{
    brotli_bytes, brotli_encode, gunzipped, gzip_bytes, gzip_encode, unbrotlied,
};
use crate::servers::fields::{
    contains_field, field_text, has_field, is_plain, lemma_plain_field, lemma_with_value,
    lemma_without, remove_field, set_field, text_of_field, with_value, without_field,
};
use crate::servers::http::{Body, BodyView, Response, ResponseView};
use crate::text::{
    before, before_char, chars_of, ends_with, eq_ignore_case, has_prefix, has_suffix, lower,
    lowered, same_letters, split, split_at_char, starts_with, string_of, strip_prefix, trim,
    trim_end, trim_start, trimmed, without_prefix, lemma_position, lemma_split_joined, Class,
};

verus! {

// ---------------------------------------------------------------------------
// Weights
// ---------------------------------------------------------------------------

/// Whether a character is a decimal digit.
pub open spec fn is_digit(c: char) -> bool {
    '0' <= c <= '9'
}

/// The end of the digits at a place.
pub open spec fn digits_end(s: Seq<char>, i: int) -> int
    decreases s.len() - i,
{
    if i < 0 || i >= s.len() || !is_digit(s[i]) {
        i
    } else {
        digits_end(s, i + 1)
    }
}

/// The number that digits at a place stand for. It grows no further once it has
/// five digits or more.
pub open spec fn exponent(s: Seq<char>, i: int, e: int, acc: int) -> int
    decreases e - i,
{
    if i < 0 || i >= e || i >= s.len() {
        acc
    } else if acc < 0x10000 {
        exponent(s, i + 1, e, acc * 10 + (s[i] as int - '0' as int))
    } else {
        exponent(s, i + 1, e, acc)
    }
}

/// A number in decimal: its digits, how many of them stand before the point, and
/// its exponent.
pub struct Decimal {
    pub digits: Seq<char>,
    pub whole: int,
    pub exponent: int,
}

/// The exponent from a place to the end of a number; none where that is
/// malformed.
pub open spec fn exponent_at(s: Seq<char>, i: int) -> Option<int> {
    if i >= s.len() {
        Some(0)
    } else if s[i] == 'e' || s[i] == 'E' {
        let negative = i + 1 < s.len() && s[i + 1] == '-';
        let a = if i + 1 < s.len() && (s[i + 1] == '-' || s[i + 1] == '+') {
            i + 2
        } else {
            i + 1
        };
        let b = digits_end(s, a);
        if b <= a || b != s.len() {
            None
        } else if negative {
            Some(-exponent(s, a, b, 0))
        } else {
            Some(exponent(s, a, b, 0))
        }
    } else {
        None
    }
}

/// The number that stands at a place up to the end: digits with a point somewhere
/// in or around them, and an exponent.
pub open spec fn decimal_at(s: Seq<char>, i: int) -> Option<Decimal> {
    let a = digits_end(s, i);
    let point = a < s.len() && s[a] == '.';
    let b = if point {
        digits_end(s, a + 1)
    } else {
        a
    };
    let digits = if point {
        s.subrange(i, a) + s.subrange(a + 1, b)
    } else {
        s.subrange(i, a)
    };
    if digits.len() == 0 {
        None
    } else {
        match exponent_at(s, b) {
            Some(e) => Some(Decimal { digits, whole: a - i, exponent: e }),
            None => None,
        }
    }
}

/// The first digit that is not zero, from a place on.
pub open spec fn first_digit(d: Seq<char>, i: int) -> int
    decreases d.len() - i,
{
    if i < 0 || i >= d.len() || d[i] != '0' {
        i
    } else {
        first_digit(d, i + 1)
    }
}

/// The digits of half of the smallest positive number of single precision, which
/// is 2 to the power of -150. The first of them stands for 10 to the power of
/// -46.
pub const HALF_OF_LEAST: &'static str =
    "700649232162408535461864791644958065640130970938257885878534141944895541342930300743319094181060791015625";

/// A digit, or zero behind the last one.
pub open spec fn digit_or_zero(d: Seq<char>, i: int) -> char {
    if 0 <= i < d.len() {
        d[i]
    } else {
        '0'
    }
}

/// Whether digits stand for more than others whose first digits have the same
/// place.
pub open spec fn exceeds(a: Seq<char>, i: int, b: Seq<char>, j: int, n: nat) -> bool
    decreases n,
{
    if n == 0 {
        false
    } else if digit_or_zero(a, i) != digit_or_zero(b, j) {
        digit_or_zero(a, i) > digit_or_zero(b, j)
    } else {
        exceeds(a, i + 1, b, j + 1, (n - 1) as nat)
    }
}

/// Whether a number is more than nothing when it is held in single precision:
/// what is at most half of the smallest positive number counts as nothing.
pub open spec fn is_something(d: Decimal) -> bool {
    let z = first_digit(d.digits, 0);
    if z >= d.digits.len() {
        false
    } else {
        let place = d.whole - 1 - z + d.exponent;
        if place != -46 {
            place > -46
        } else {
            exceeds(
                d.digits,
                z,
                HALF_OF_LEAST@,
                0,
                (d.digits.len() + HALF_OF_LEAST@.len()) as nat,
            )
        }
    }
}

/// Whether a weight is more than nothing. What is no number weighs nothing.
pub open spec fn weighs(v: Seq<char>) -> bool {
    if v.len() == 0 || v[0] == '-' {
        false
    } else {
        let i = if v[0] == '+' {
            1int
        } else {
            0
        };
        let word = lower(v.skip(i));
        if word == "inf"@ || word == "infinity"@ {
            true
        } else {
            match decimal_at(v, i) {
                Some(d) => is_something(d),
                None => false,
            }
        }
    }
}

fn digit_here(c: char) -> (r: bool)
    ensures
        r == is_digit(c),
{
    '0' <= c && c <= '9'
}

fn find_digits_end(v: &[char], i: usize) -> (r: usize)
    requires
        i <= v@.len(),
    ensures
        r == digits_end(v@, i as int),
        i <= r <= v@.len(),
        forall|j: int| i <= j < r ==> is_digit(#[trigger] v@[j]),
{
    let n: usize = v.len();
    let mut j: usize = i;
    while j < n && digit_here(v[j])
        invariant
            i <= j <= n,
            n == v@.len(),
            digits_end(v@, i as int) == digits_end(v@, j as int),
            forall|k: int| i <= k < j ==> is_digit(#[trigger] v@[k]),
        decreases n - j,
    {
        j = j + 1;
    }
    j
}

fn read_exponent(v: &[char], i: usize) -> (r: Option<i64>)
    requires
        i <= v@.len(),
    ensures
        match r {
            Some(e) => exponent_at(v@, i as int) == Some(e as int) && -1_000_000 <= e <= 1_000_000,
            None => exponent_at(v@, i as int) is None,
        },
{
    let n: usize = v.len();
    if i >= n {
        return Some(0);
    }
    if v[i] != 'e' && v[i] != 'E' {
        return None;
    }
    let negative = n - i > 1 && v[i + 1] == '-';
    let a: usize = if n - i > 1 && (v[i + 1] == '-' || v[i + 1] == '+') {
        i + 2
    } else {
        i + 1
    };
    let b: usize = find_digits_end(v, a);
    if b <= a || b != n {
        return None;
    }
    let mut acc: i64 = 0;
    let mut j: usize = a;
    while j < b
        invariant
            a <= j <= b,
            b == n,
            n == v@.len(),
            0 <= acc <= 655369,
            forall|k: int| a <= k < b ==> is_digit(#[trigger] v@[k]),
            exponent(v@, a as int, b as int, 0) == exponent(v@, j as int, b as int, acc as int),
        decreases b - j,
    {
        assert(is_digit(v@[j as int]));
        if acc < 0x10000 {
            let d: u32 = v[j] as u32 - 48;
            acc = acc * 10 + d as i64;
        }
        j = j + 1;
    }
    if negative {
        Some(-acc)
    } else {
        Some(acc)
    }
}

fn more_than(a: &[char], from: usize, b: &[char]) -> (r: bool)
    requires
        from <= a@.len(),
    ensures
        r == exceeds(a@, from as int, b@, 0, (a@.len() + b@.len()) as nat),
{
    let n: usize = a.len();
    let m: usize = b.len();
    let total: u128 = n as u128 + m as u128;
    let mut k: u128 = 0;
    while k < total
        invariant
            k <= total,
            total == n + m,
            n == a@.len(),
            m == b@.len(),
            from <= n,
            exceeds(a@, from as int, b@, 0, total as nat) == exceeds(
                a@,
                from + k,
                b@,
                k as int,
                (total - k) as nat,
            ),
        decreases total - k,
    {
        let x: char = if k < (n - from) as u128 {
            a[from + k as usize]
        } else {
            '0'
        };
        let y: char = if k < m as u128 {
            b[k as usize]
        } else {
            '0'
        };
        if x != y {
            return x > y;
        }
        k = k + 1;
    }
    false
}

fn something(digits: &[char], whole: usize, exponent: i64) -> (r: bool)
    requires
        -1_000_000 <= exponent <= 1_000_000,
    ensures
        r == is_something(
            Decimal { digits: digits@, whole: whole as int, exponent: exponent as int },
        ),
{
    let n: usize = digits.len();
    let mut z: usize = 0;
    while z < n && digits[z] == '0'
        invariant
            z <= n,
            n == digits@.len(),
            first_digit(digits@, 0) == first_digit(digits@, z as int),
        decreases n - z,
    {
        z = z + 1;
    }
    if z >= n {
        return false;
    }
    let place: i128 = whole as i128 - 1 - z as i128 + exponent as i128;
    if place != -46 {
        return place > -46;
    }
    let half = chars_of(HALF_OF_LEAST);
    more_than(digits, z, half.as_slice())
}

/// Whether a weight is more than nothing.
pub fn is_positive(text: &str) -> (r: bool)
    ensures
        r == weighs(text@),
{
    let chars = chars_of(text);
    let v = chars.as_slice();
    let n: usize = v.len();
    if n == 0 || v[0] == '-' {
        return false;
    }
    let i: usize = if v[0] == '+' {
        1
    } else {
        0
    };
    let rest = string_of(v, i, n);
    assert(rest@ =~= text@.skip(i as int));
    let word = lowered(rest.as_str());
    if word.as_str().eq("inf") || word.as_str().eq("infinity") {
        return true;
    }
    let a: usize = find_digits_end(v, i);
    let mut digits: Vec<char> = Vec::new();
    let mut j: usize = i;
    while j < a
        invariant
            i <= j <= a,
            a <= n,
            n == v@.len(),
            digits@ == v@.subrange(i as int, j as int),
        decreases a - j,
    {
        digits.push(v[j]);
        assert(digits@ =~= v@.subrange(i as int, j + 1));
        j = j + 1;
    }
    let mut b: usize = a;
    if a < n && v[a] == '.' {
        b = find_digits_end(v, a + 1);
        let ghost start = digits@;
        let mut k: usize = a + 1;
        assert(start + v@.subrange(a + 1, a + 1) =~= start);
        while k < b
            invariant
                a + 1 <= k <= b,
                b <= n,
                n == v@.len(),
                digits@ == start + v@.subrange(a + 1, k as int),
            decreases b - k,
        {
            digits.push(v[k]);
            assert(digits@ =~= start + v@.subrange(a + 1, k + 1));
            k = k + 1;
        }
    }
    if digits.len() == 0 {
        return false;
    }
    match read_exponent(v, b) {
        Some(e) => something(digits.as_slice(), a - i, e),
        None => false,
    }
}

// ---------------------------------------------------------------------------
// Negotiation
// ---------------------------------------------------------------------------

/// An encoding that the server can produce.
#[derive(Debug, Clone, Copy, PartialEq, Eq, Structural)]
pub enum Encoding {
    Br,
    Gzip,
}

/// The name of an encoding.
pub open spec fn token_of(e: Encoding) -> Seq<char> {
    match e {
        Encoding::Br => "br"@,
        Encoding::Gzip => "gzip"@,
    }
}

impl Encoding {
    /// The name of the encoding.
    pub fn token(self) -> (r: &'static str)
        ensures
            r@ == token_of(self),
    {
        match self {
            Encoding::Br => "br",
            Encoding::Gzip => "gzip",
        }
    }
}

/// Whether the parameters of an encoding give it any weight; the last weight
/// counts, and without one it has.
pub open spec fn weighted(f: Seq<Seq<char>>) -> bool
    decreases f.len(),
{
    if f.len() <= 1 {
        true
    } else {
        match strip_prefix(trim(f.last()), "q="@) {
            Some(v) => weighs(trim(v)),
            None => weighted(f.drop_last()),
        }
    }
}

/// The name that an item of a list starts with.
pub open spec fn item_name(part: Seq<char>) -> Seq<char> {
    lower(trim(split(part, ';')[0]))
}

/// Whether a client takes an encoding that its list names; none where the list
/// does not name it. The last of several items counts.
pub open spec fn verdict_on(parts: Seq<Seq<char>>, name: Seq<char>, other: Seq<char>) -> Option<bool>
    decreases parts.len(),
{
    if parts.len() == 0 {
        None
    } else if item_name(parts.last()) == name || item_name(parts.last()) == other {
        Some(weighted(split(parts.last(), ';')))
    } else {
        verdict_on(parts.drop_last(), name, other)
    }
}

/// Whether a client takes an encoding: as its list says, or else as the list
/// says of all others.
pub open spec fn takes(named: Option<bool>, others: Option<bool>) -> bool {
    match named {
        Some(b) => b,
        None => others == Some(true),
    }
}

/// The encoding for a client: Brotli before gzip.
pub open spec fn agreed(accept: Seq<char>) -> Option<Encoding> {
    let p = split(accept, ',');
    let others = verdict_on(p, "*"@, "*"@);
    if takes(verdict_on(p, "br"@, "br"@), others) {
        Some(Encoding::Br)
    } else if takes(verdict_on(p, "gzip"@, "x-gzip"@), others) {
        Some(Encoding::Gzip)
    } else {
        None
    }
}

fn read_weight(fields: &Vec<String>) -> (r: bool)
    ensures
        r == weighted(fields.deep_view()),
{
    let ghost all = fields.deep_view();
    let mut i: usize = fields.len();
    assert(all.take(i as int) =~= all);
    while i > 1
        invariant
            i <= fields@.len(),
            all == fields.deep_view(),
            weighted(all) == weighted(all.take(i as int)),
        decreases i,
    {
        i = i - 1;
        assert(all.take(i + 1).drop_last() =~= all.take(i as int));
        assert(all.take(i + 1).last() == fields@[i as int]@);
        let p = trimmed(fields[i].as_str());
        if let Some(v) = without_prefix(p.as_str(), "q=") {
            let t = trimmed(v.as_str());
            return is_positive(t.as_str());
        }
    }
    true
}

/// The encoding for a client that sends a list of those that it takes.
pub fn negotiate(accept_encoding: &str) -> (r: Option<Encoding>)
    ensures
        r == agreed(accept_encoding@),
{
    let parts = split_at_char(accept_encoding, ',');
    let ghost all = parts.deep_view();
    let n: usize = parts.len();
    let mut br: Option<bool> = None;
    let mut gzip: Option<bool> = None;
    let mut others: Option<bool> = None;
    let mut i: usize = 0;
    assert(all.take(0) =~= Seq::empty());
    while i < n
        invariant
            i <= n,
            n == parts@.len(),
            all == parts.deep_view(),
            br == verdict_on(all.take(i as int), "br"@, "br"@),
            gzip == verdict_on(all.take(i as int), "gzip"@, "x-gzip"@),
            others == verdict_on(all.take(i as int), "*"@, "*"@),
        decreases n - i,
    {
        assert(all.take(i + 1).drop_last() =~= all.take(i as int));
        assert(all.take(i + 1).last() == parts@[i as int]@);
        let fields = split_at_char(parts[i].as_str(), ';');
        assert(fields.deep_view().len() > 0);
        assert(fields.deep_view()[0] == fields@[0]@);
        let first = trimmed(fields[0].as_str());
        let name = lowered(first.as_str());
        let w = read_weight(&fields);
        if name.as_str().eq("br") {
            br = Some(w);
        }
        if name.as_str().eq("gzip") || name.as_str().eq("x-gzip") {
            gzip = Some(w);
        }
        if name.as_str().eq("*") {
            others = Some(w);
        }
        i = i + 1;
    }
    assert(all.take(n as int) =~= all);
    let rest = match others {
        Some(b) => b,
        None => false,
    };
    let takes_br = match br {
        Some(b) => b,
        None => rest,
    };
    let takes_gzip = match gzip {
        Some(b) => b,
        None => rest,
    };
    if takes_br {
        Some(Encoding::Br)
    } else if takes_gzip {
        Some(Encoding::Gzip)
    } else {
        None
    }
}

// ---------------------------------------------------------------------------
// What is encoded
// ---------------------------------------------------------------------------

/// Whether a media type is text of some kind.
pub open spec fn is_text(content_type: Seq<char>) -> bool {
    let e = lower(trim(before(content_type, ';')));
    starts_with(e, "text/"@) || ends_with(e, "+json"@) || ends_with(e, "+xml"@) || e
        == "application/json"@ || e == "application/javascript"@ || e
        == "application/x-javascript"@ || e == "application/ecmascript"@ || e
        == "application/xml"@
}

/// Whether a media type is worth encoding.
pub fn is_compressible(content_type: &str) -> (r: bool)
    ensures
        r == is_text(content_type@),
{
    let first = before_char(content_type, ';');
    let t = trimmed(first.as_str());
    let e = lowered(t.as_str());
    let e = e.as_str();
    has_prefix(e, "text/") || has_suffix(e, "+json") || has_suffix(e, "+xml") || e.eq(
        "application/json",
    ) || e.eq("application/javascript") || e.eq("application/x-javascript") || e.eq(
        "application/ecmascript",
    ) || e.eq("application/xml")
}

/// The shortest body that is worth encoding.
pub const MIN_COMPRESSIBLE_BODY: usize = 256;

/// The quality of Brotli.
pub const BROTLI_QUALITY: u32 = 5;

/// The window of Brotli.
pub const BROTLI_WINDOW: u32 = 22;

/// The buffer of Brotli.
pub const BROTLI_BUFFER: usize = 4096;

/// Bytes in an encoding, if they can be encoded.
pub open spec fn encoded(e: Encoding, data: Seq<u8>) -> Option<Seq<u8>> {
    match e {
        Encoding::Gzip => gzip_bytes(data),
        Encoding::Br => brotli_bytes(data, BROTLI_BUFFER, BROTLI_QUALITY, BROTLI_WINDOW),
    }
}

/// What bytes in an encoding stand for, if they are in it.
pub open spec fn decoded(e: Encoding, data: Seq<u8>) -> Option<Seq<u8>> {
    match e {
        Encoding::Gzip => gunzipped(data),
        Encoding::Br => unbrotlied(data),
    }
}

/// Bytes in an encoding, if they can be encoded.
pub fn encode(encoding: Encoding, data: &[u8]) -> (r: Option<Vec<u8>>)
    ensures
        r.deep_view() == encoded(encoding, data@),
        match r {
            Some(d) => decoded(encoding, d@) == Some(data@),
            None => true,
        },
{
    match encoding {
        Encoding::Gzip => gzip_encode(data),
        Encoding::Br => brotli_encode(data, BROTLI_BUFFER, BROTLI_QUALITY, BROTLI_WINDOW),
    }
}

/// Whether a list of header names holds the one on encodings.
pub open spec fn varies(existing: Seq<char>) -> bool {
    exists|i: int|
        0 <= i < split(existing, ',').len() && same_letters(
            trim(#[trigger] split(existing, ',')[i]),
            "accept-encoding"@,
        )
}

/// Header fields that say that the response depends on the encodings that a
/// client takes.
pub open spec fn varied(h: Seq<(Seq<char>, Seq<char>)>) -> Seq<(Seq<char>, Seq<char>)> {
    let existing = field_text(h, 0, "vary"@);
    if varies(existing) {
        h
    } else if trim(existing).len() == 0 {
        with_value(h, "vary"@, "Accept-Encoding"@)
    } else {
        with_value(h, "vary"@, existing + ", Accept-Encoding"@)
    }
}

/// Says that the response depends on the encodings that a client takes.
pub fn add_vary(h: &mut Vec<(String, String)>)
    ensures
        final(h).deep_view() == varied(old(h).deep_view()),
{
    let existing = text_of_field(h, "vary");
    let pieces = split_at_char(existing.as_str(), ',');
    let ghost all = pieces.deep_view();
    let ghost start = h.deep_view();
    let n: usize = pieces.len();
    let mut i: usize = 0;
    while i < n
        invariant
            i <= n,
            n == pieces@.len(),
            all == pieces.deep_view(),
            all == split(existing@, ','),
            start == old(h).deep_view(),
            h.deep_view() == start,
            existing@ == field_text(start, 0, "vary"@),
            forall|j: int|
                0 <= j < i ==> !same_letters(trim(#[trigger] all[j]), "accept-encoding"@),
        decreases n - i,
    {
        assert(all[i as int] == pieces@[i as int]@);
        let t = trimmed(pieces[i].as_str());
        if eq_ignore_case(t.as_str(), "accept-encoding") {
            return ;
        }
        i = i + 1;
    }
    let t = trimmed(existing.as_str());
    if t.as_str().is_empty() {
        set_field(h, "vary", "Accept-Encoding");
    } else {
        let mut merged = existing;
        merged.append(", Accept-Encoding");
        set_field(h, "vary", merged.as_str());
    }
}

/// The encoding that a response may get: it is text of some kind, it has no
/// encoding yet, it is no part of a file, its body is at hand, is sent and is
/// long enough, and the client takes one.
pub open spec fn wanted_encoding(r: ResponseView, accept: Option<Seq<char>>) -> Option<Encoding> {
    if !is_text(field_text(r.headers, 0, "content-type"@)) || has_field(
        r.headers,
        "content-encoding"@,
    ) || r.status == 206 || r.status == 416 || r.status == 304 || r.status == 204 || r.head_only {
        None
    } else {
        match (accept, r.body) {
            (Some(a), BodyView::Bytes(b)) => if b.len() < MIN_COMPRESSIBLE_BODY {
                None
            } else {
                agreed(a)
            },
            _ => None,
        }
    }
}

/// A response with an encoded body, if that is shorter.
pub open spec fn attached(r: ResponseView, e: Encoding, data: Option<Seq<u8>>) -> ResponseView {
    match (r.body, data) {
        (BodyView::Bytes(raw), Some(d)) => if d.len() < raw.len() {
            ResponseView {
                body: BodyView::Bytes(d),
                headers: without_field(
                    with_value(
                        with_value(r.headers, "content-encoding"@, token_of(e)),
                        "content-length"@,
                        decimal(d.len() as int),
                    ),
                    "accept-ranges"@,
                ),
                ..r
            }
        } else {
            r
        },
        _ => r,
    }
}

/// A response after its body may have been encoded.
pub open spec fn compressed(r: ResponseView, accept: Option<Seq<char>>) -> ResponseView {
    if !is_text(field_text(r.headers, 0, "content-type"@)) {
        r
    } else {
        let v = ResponseView { headers: varied(r.headers), ..r };
        match (wanted_encoding(v, accept), v.body) {
            (Some(e), BodyView::Bytes(b)) => attached(v, e, encoded(e, b)),
            _ => v,
        }
    }
}

/// Gives a response an encoded body, if that is shorter.
pub fn attach_encoded(response: &mut Response, encoding: Encoding, data: Option<Vec<u8>>)
    ensures
        final(response)@ == attached(old(response)@, encoding, data.deep_view()),
{
    let raw_len: usize = match &response.body {
        Body::Bytes(b) => b.len(),
        _ => {
            return ;
        },
    };
    let d = match data {
        None => {
            return ;
        },
        Some(d) => d,
    };
    let len: usize = d.len();
    assert(data.deep_view() == Some(d@)) by {
        assert(d.deep_view() =~= d@);
    }
    if len >= raw_len {
        return ;
    }
    let mut headers: Vec<(String, String)> = Vec::new();
    std::mem::swap(&mut headers, &mut response.headers);
    set_field(&mut headers, "content-encoding", encoding.token());
    set_field(&mut headers, "content-length", decimal_of(len as u64).as_str());
    remove_field(&mut headers, "accept-ranges");
    response.headers = headers;
    response.body = Body::Bytes(d);
}

/// Encodes the body of a response where the client takes that and it is worth
/// it.
pub fn maybe_compress(response: &mut Response, accept_encoding: Option<&str>)
    ensures
        final(response)@ == compressed(old(response)@, accept_encoding.deep_view()),
        match (old(response)@.body, final(response)@.body) {
            (BodyView::Bytes(raw), BodyView::Bytes(d)) => d == raw || decoded(
                agreed(accept_encoding.deep_view()->0)->0,
                d,
            ) == Some(raw),
            (a, b) => a == b,
        },
{
    let content_type = text_of_field(&response.headers, "content-type");
    if !is_compressible(content_type.as_str()) {
        return ;
    }
    let mut headers: Vec<(String, String)> = Vec::new();
    std::mem::swap(&mut headers, &mut response.headers);
    add_vary(&mut headers);
    response.headers = headers;
    let again = text_of_field(&response.headers, "content-type");
    if !is_compressible(again.as_str()) || contains_field(&response.headers, "content-encoding")
        || response.status == 206 || response.status == 416 || response.status == 304
        || response.status == 204 || response.head_only {
        return ;
    }
    let accept = match accept_encoding {
        None => {
            return ;
        },
        Some(a) => a,
    };
    let data = match &response.body {
        Body::Bytes(b) => if b.len() < MIN_COMPRESSIBLE_BODY {
            return ;
        } else {
            match negotiate(accept) {
                None => {
                    return ;
                },
                Some(e) => (e, encode(e, b.as_slice())),
            }
        },
        _ => {
            return ;
        },
    };
    proof {
        match &data.1 {
            Some(d) => {
                assert(d.deep_view() =~= d@);
                assert(decoded(data.0, d@) == Some(old(response)@.body->Bytes_0));
            },
            None => {},
        }
    }
    attach_encoded(response, data.0, data.1);
}

// ---------------------------------------------------------------------------
// Laws
// ---------------------------------------------------------------------------

/// The name of the field on encodings stands in a list that it was added to.
proof fn lemma_listed(existing: Seq<char>)
    ensures
        varies("Accept-Encoding"@),
        varies(existing + ", Accept-Encoding"@),
{
    reveal_strlit("Accept-Encoding");
    reveal_strlit("accept-encoding");
    reveal_strlit(", Accept-Encoding");
    let a = "Accept-Encoding"@;
    let b = seq![' '] + a;
    assert(lower(a) =~= lower("accept-encoding"@));
    assert(trim_start(a, Class::Space) == a);
    assert(trim_end(a, Class::Space) == a);
    assert(b.skip(1) =~= a);
    assert(trim_start(b, Class::Space) == a);
    lemma_position(a, ',');
    lemma_position(b, ',');
    assert(split(a, ',')[0] == a);
    assert(split(b, ',')[0] == b);
    assert(", Accept-Encoding"@ =~= seq![','] + b);
    assert(existing + ", Accept-Encoding"@ =~= existing + seq![','] + b);
    lemma_split_joined(existing, ',', b);
    let all = split(existing, ',') + split(b, ',');
    assert(all[split(existing, ',').len() as int] == b);
}

proof fn lemma_varied(h: Seq<(Seq<char>, Seq<char>)>)
    ensures
        varies(field_text(varied(h), 0, "vary"@)),
        field_text(varied(h), 0, "content-type"@) == field_text(h, 0, "content-type"@),
{
    let existing = field_text(h, 0, "vary"@);
    reveal_strlit("vary");
    reveal_strlit("content-type");
    reveal_strlit("Accept-Encoding");
    reveal_strlit(", Accept-Encoding");
    lemma_plain_field(h, 0, "vary"@);
    lemma_listed(existing);
    assert(lower("vary"@).len() != lower("content-type"@).len());
    assert(is_plain("Accept-Encoding"@));
    let merged = existing + ", Accept-Encoding"@;
    assert forall|i: int| 0 <= i < merged.len() implies (#[trigger] merged[i] == '\t' || (
    merged[i] as u32 >= 32 && (merged[i] as u32) < 127)) by {
        if i < existing.len() {
            assert(merged[i] == existing[i]);
        } else {
            assert(merged[i] == ", Accept-Encoding"@[i - existing.len()]);
        }
    }
    lemma_with_value(h, "vary"@, "Accept-Encoding"@, "content-type"@);
    lemma_with_value(h, "vary"@, merged, "content-type"@);
}

/// A response of a kind that may be encoded says that it depends on the
/// encodings that a client takes, whether it was encoded or not.
pub proof fn caches_are_told(r: ResponseView, accept: Option<Seq<char>>)
    requires
        is_text(field_text(r.headers, 0, "content-type"@)),
    ensures
        varies(field_text(compressed(r, accept).headers, 0, "vary"@)),
{
    lemma_varied(r.headers);
    reveal_strlit("vary");
    reveal_strlit("content-encoding");
    reveal_strlit("content-length");
    reveal_strlit("accept-ranges");
    assert(lower("vary"@).len() == 4);
    assert(lower("content-encoding"@).len() == 16);
    assert(lower("content-length"@).len() == 14);
    assert(lower("accept-ranges"@).len() == 13);
    let v = ResponseView { headers: varied(r.headers), ..r };
    match (wanted_encoding(v, accept), v.body) {
        (Some(e), BodyView::Bytes(b)) => {
            match encoded(e, b) {
                Some(d) => {
                    let h1 = with_value(v.headers, "content-encoding"@, token_of(e));
                    let h2 = with_value(h1, "content-length"@, decimal(d.len() as int));
                    lemma_with_value(v.headers, "content-encoding"@, token_of(e), "vary"@);
                    lemma_with_value(
                        h1,
                        "content-length"@,
                        decimal(d.len() as int),
                        "vary"@,
                    );
                    lemma_without(h2, "accept-ranges"@, "vary"@);
                },
                None => {},
            }
        },
        _ => {},
    }
}

/// A response that may have been encoded is not encoded again: the same client is
/// given the same, however often it is tried.
pub proof fn responses_are_encoded_once(r: ResponseView, accept: Option<Seq<char>>)
    ensures
        compressed(compressed(r, accept), accept) == compressed(r, accept),
{
    if is_text(field_text(r.headers, 0, "content-type"@)) {
        caches_are_told(r, accept);
        lemma_varied(r.headers);
        let v = ResponseView { headers: varied(r.headers), ..r };
        let c = compressed(r, accept);
        assert(varied(v.headers) == v.headers);
        assert(varied(c.headers) == c.headers);
        reveal_strlit("content-type");
        reveal_strlit("content-encoding");
        reveal_strlit("content-length");
        reveal_strlit("accept-ranges");
        assert(lower("content-type"@).len() == 12);
        assert(lower("content-encoding"@).len() == 16);
        assert(lower("content-length"@).len() == 14);
        assert(lower("accept-ranges"@).len() == 13);
        match (wanted_encoding(v, accept), v.body) {
            (Some(e), BodyView::Bytes(b)) => {
                match encoded(e, b) {
                    Some(d) => {
                        let h1 = with_value(v.headers, "content-encoding"@, token_of(e));
                        let n = decimal(d.len() as int);
                        let h2 = with_value(h1, "content-length"@, n);
                        lemma_with_value(
                            v.headers,
                            "content-encoding"@,
                            token_of(e),
                            "content-type"@,
                        );
                        lemma_with_value(h1, "content-length"@, n, "content-type"@);
                        lemma_without(h2, "accept-ranges"@, "content-type"@);
                        lemma_with_value(h1, "content-length"@, n, "content-encoding"@);
                        lemma_without(h2, "accept-ranges"@, "content-encoding"@);
                    },
                    None => {},
                }
            },
            _ => {},
        }
    }
}

/// A body that changed is in an encoding that the client takes, is shorter than
/// it was, and the response names the encoding.
pub proof fn encoded_bodies_are_wanted(r: ResponseView, accept: Option<Seq<char>>)
    requires
        compressed(r, accept).body != r.body,
    ensures
        accept is Some,
        agreed(accept->0) is Some,
        r.body is Bytes,
        compressed(r, accept).body is Bytes,
        (compressed(r, accept).body->Bytes_0).len() < (r.body->Bytes_0).len(),
        encoded(agreed(accept->0)->0, r.body->Bytes_0) == Some(
            compressed(r, accept).body->Bytes_0,
        ),
        field_text(compressed(r, accept).headers, 0, "content-encoding"@) == token_of(
            agreed(accept->0)->0,
        ),
{
    let v = ResponseView { headers: varied(r.headers), ..r };
    let e = wanted_encoding(v, accept)->0;
    let b = v.body->Bytes_0;
    let d = encoded(e, b)->0;
    reveal_strlit("content-encoding");
    reveal_strlit("content-length");
    reveal_strlit("accept-ranges");
    assert(lower("content-encoding"@).len() == 16);
    assert(lower("content-length"@).len() == 14);
    assert(lower("accept-ranges"@).len() == 13);
    reveal_strlit("br");
    reveal_strlit("gzip");
    assert(is_plain(token_of(e)));
    let h1 = with_value(v.headers, "content-encoding"@, token_of(e));
    let h2 = with_value(h1, "content-length"@, decimal(d.len() as int));
    lemma_with_value(v.headers, "content-encoding"@, token_of(e), "content-encoding"@);
    lemma_with_value(h1, "content-length"@, decimal(d.len() as int), "content-encoding"@);
    lemma_without(h2, "accept-ranges"@, "content-encoding"@);
}

/// Parts of files, what came encoded, and what is no text stay as they are.
pub proof fn others_stay_as_they_are(r: ResponseView, accept: Option<Seq<char>>)
    requires
        r.status == 206 || !is_text(field_text(r.headers, 0, "content-type"@)) || has_field(
            r.headers,
            "content-encoding"@,
        ) || accept is None,
    ensures
        compressed(r, accept).body == r.body,
        compressed(r, accept).status == r.status,
{
    reveal_strlit("vary");
    reveal_strlit("content-encoding");
    assert(lower("vary"@).len() == 4);
    assert(lower("content-encoding"@).len() == 16);
    let h = r.headers;
    lemma_without(h, "vary"@, "content-encoding"@);
    let w = without_field(h, "vary"@);
    if has_field(h, "content-encoding"@) {
        let i = choose|i: int|
            0 <= i < w.len() && same_letters((#[trigger] w[i]).0, "content-encoding"@);
        assert(with_value(h, "vary"@, "Accept-Encoding"@)[i] == w[i]);
        assert(with_value(
            h,
            "vary"@,
            field_text(h, 0, "vary"@) + ", Accept-Encoding"@,
        )[i] == w[i]);
    }
}

} // verus!
