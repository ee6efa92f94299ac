//! Server-side directives: their attributes, the variables in them, and how
//! values are written out.

use vstd::prelude::*;
use vstd::utf8::encode_utf8;

use crate::digits::digit;
use crate::table::Table;
use crate::text::{chars_of, is_space, lower, lowered, space, string_of};

verus! {

// ---------------------------------------------------------------------------
// Attributes
// ---------------------------------------------------------------------------

/// The first place at or after another that holds no white space.
pub open spec fn past_space(s: Seq<char>, i: int) -> int
    decreases s.len() - i,
{
    if i < 0 || i >= s.len() || !is_space(s[i]) {
        i
    } else {
        past_space(s, i + 1)
    }
}

/// The end of the name of an attribute: an equals sign or white space.
pub open spec fn name_end(s: Seq<char>, i: int) -> int
    decreases s.len() - i,
{
    if i < 0 || i >= s.len() || s[i] == '=' || is_space(s[i]) {
        i
    } else {
        name_end(s, i + 1)
    }
}

/// The end of a word: white space.
pub open spec fn bare_end(s: Seq<char>, i: int) -> int
    decreases s.len() - i,
{
    if i < 0 || i >= s.len() || is_space(s[i]) {
        i
    } else {
        bare_end(s, i + 1)
    }
}

/// A value up to its closing quote, and the place after that. A backslash stands
/// before a quote or a backslash of the value; before anything else it is part
/// of the value.
pub open spec fn quoted(s: Seq<char>, i: int, quote: char) -> (Seq<char>, int)
    decreases s.len() - i,
{
    if i < 0 || i >= s.len() {
        (Seq::empty(), i)
    } else if s[i] == '\\' {
        if i + 1 >= s.len() {
            (Seq::empty(), i + 1)
        } else {
            let rest = quoted(s, i + 2, quote);
            if s[i + 1] == quote || s[i + 1] == '\\' {
                (seq![s[i + 1]] + rest.0, rest.1)
            } else {
                (seq!['\\', s[i + 1]] + rest.0, rest.1)
            }
        }
    } else if s[i] == quote {
        (Seq::empty(), i + 1)
    } else {
        let rest = quoted(s, i + 1, quote);
        (seq![s[i]] + rest.0, rest.1)
    }
}

/// Whether a character opens a value.
pub open spec fn is_quote(c: char) -> bool {
    c == '"' || c == '\'' || c == '`'
}

/// The value of an attribute, and the place after it.
pub open spec fn value_at(s: Seq<char>, i: int) -> (Seq<char>, int) {
    if i >= s.len() {
        (Seq::empty(), i)
    } else if is_quote(s[i]) {
        quoted(s, i + 1, s[i])
    } else {
        (s.subrange(i, bare_end(s, i)), bare_end(s, i))
    }
}

/// The attributes from a place on, by their names in lower case. A name without
/// an equals sign has no value.
pub open spec fn attributes(s: Seq<char>, i: int) -> Seq<(Seq<char>, Seq<char>)>
    decreases s.len() - i,
{
    let a = past_space(s, i);
    let b = name_end(s, a);
    let c = past_space(s, b);
    if i < 0 || a < i || b <= a || b > s.len() || c < b || c > s.len() {
        Seq::empty()
    } else {
        let name = lower(s.subrange(a, b));
        if c < s.len() && s[c] == '=' {
            let v = value_at(s, past_space(s, c + 1));
            if v.1 <= i || v.1 > s.len() {
                Seq::empty()
            } else {
                seq![(name, v.0)] + attributes(s, v.1)
            }
        } else {
            seq![(name, Seq::<char>::empty())] + attributes(s, c)
        }
    }
}

/// The first place at or after another that holds no white space.
pub fn skip_space(v: &[char], i: usize) -> (r: usize)
    requires
        i <= v@.len(),
    ensures
        r == past_space(v@, i as int),
        i <= r <= v@.len(),
{
    let n: usize = v.len();
    let mut j: usize = i;
    while j < n && space(v[j])
        invariant
            i <= j <= n,
            n == v@.len(),
            past_space(v@, i as int) == past_space(v@, j as int),
        decreases n - j,
    {
        j = j + 1;
    }
    j
}

fn find_name_end(v: &[char], i: usize) -> (r: usize)
    requires
        i <= v@.len(),
    ensures
        r == name_end(v@, i as int),
        i <= r <= v@.len(),
{
    let n: usize = v.len();
    let mut j: usize = i;
    while j < n && v[j] != '=' && !space(v[j])
        invariant
            i <= j <= n,
            n == v@.len(),
            name_end(v@, i as int) == name_end(v@, j as int),
        decreases n - j,
    {
        j = j + 1;
    }
    j
}

fn find_bare_end(v: &[char], i: usize) -> (r: usize)
    requires
        i <= v@.len(),
    ensures
        r == bare_end(v@, i as int),
        i <= r <= v@.len(),
{
    let n: usize = v.len();
    let mut j: usize = i;
    while j < n && !space(v[j])
        invariant
            i <= j <= n,
            n == v@.len(),
            bare_end(v@, i as int) == bare_end(v@, j as int),
        decreases n - j,
    {
        j = j + 1;
    }
    j
}

fn read_quoted(v: &[char], from: usize, quote: char) -> (r: (String, usize))
    requires
        from <= v@.len(),
    ensures
        (r.0@, r.1 as int) == quoted(v@, from as int, quote),
        from <= r.1 <= v@.len(),
{
    let n: usize = v.len();
    let mut out = String::new();
    let mut i: usize = from;
    assert(out@ + quoted(v@, from as int, quote).0 =~= quoted(v@, from as int, quote).0);
    loop
        invariant
            from <= i <= n,
            n == v@.len(),
            quoted(v@, from as int, quote).0 == out@ + quoted(v@, i as int, quote).0,
            quoted(v@, from as int, quote).1 == quoted(v@, i as int, quote).1,
        decreases n - i,
    {
        let ghost was = out@;
        if i >= n {
            assert(was + Seq::<char>::empty() =~= was);
            return (out, i);
        }
        let c: char = v[i];
        if c == '\\' {
            if n - i <= 1 {
                assert(was + Seq::<char>::empty() =~= was);
                return (out, i + 1);
            }
            let e: char = v[i + 1];
            let ghost rest = quoted(v@, i + 2, quote).0;
            if e == quote || e == '\\' {
                out.push(e);
                assert(was + (seq![e] + rest) =~= out@ + rest);
            } else {
                out.push('\\');
                out.push(e);
                assert(was + (seq!['\\', e] + rest) =~= out@ + rest);
            }
            i = i + 2;
        } else if c == quote {
            assert(was + Seq::<char>::empty() =~= was);
            return (out, i + 1);
        } else {
            let ghost rest = quoted(v@, i + 1, quote).0;
            out.push(c);
            assert(was + (seq![c] + rest) =~= out@ + rest);
            i = i + 1;
        }
    }
}

fn read_value(v: &[char], i: usize) -> (r: (String, usize))
    requires
        i <= v@.len(),
    ensures
        (r.0@, r.1 as int) == value_at(v@, i as int),
        i <= r.1 <= v@.len(),
{
    let n: usize = v.len();
    if i >= n {
        return (String::new(), i);
    }
    let c: char = v[i];
    if c == '"' || c == '\'' || c == '`' {
        read_quoted(v, i + 1, c)
    } else {
        let e: usize = find_bare_end(v, i);
        (string_of(v, i, e), e)
    }
}

/// The attributes of a directive.
pub fn parse_attributes(input: &str) -> (r: Vec<(String, String)>)
    ensures
        r.deep_view() == attributes(input@, 0),
{
    let chars = chars_of(input);
    let v = chars.as_slice();
    let n: usize = v.len();
    let mut out: Vec<(String, String)> = Vec::new();
    let mut i: usize = 0;
    assert(out.deep_view() + attributes(v@, 0) =~= attributes(v@, 0));
    loop
        invariant
            i <= n,
            n == v@.len(),
            v@ == input@,
            attributes(v@, 0) == out.deep_view() + attributes(v@, i as int),
        decreases n - i,
    {
        let ghost was = out.deep_view();
        let a: usize = skip_space(v, i);
        let b: usize = find_name_end(v, a);
        let c: usize = skip_space(v, b);
        if b == a {
            assert(was + Seq::<(Seq<char>, Seq<char>)>::empty() =~= was);
            return out;
        }
        let raw = string_of(v, a, b);
        let name = lowered(raw.as_str());
        let ghost key = name@;
        if c < n && v[c] == '=' {
            let d: usize = skip_space(v, c + 1);
            let (value, e) = read_value(v, d);
            let ghost val = value@;
            out.push((name, value));
            assert(out.deep_view() =~= was.push((key, val)));
            assert(was + (seq![(key, val)] + attributes(v@, e as int)) =~= was.push((key, val))
                + attributes(v@, e as int));
            i = e;
        } else {
            out.push((name, String::new()));
            let ghost val = Seq::<char>::empty();
            assert(out.deep_view() =~= was.push((key, val)));
            assert(was + (seq![(key, val)] + attributes(v@, c as int)) =~= was.push((key, val))
                + attributes(v@, c as int));
            i = c;
        }
    }
}

/// The value of the first attribute with a name, from a place on.
pub open spec fn attribute(a: Seq<(Seq<char>, Seq<char>)>, i: int, name: Seq<char>) -> Option<
    Seq<char>,
>
    decreases a.len() - i,
{
    if i < 0 || i >= a.len() {
        None
    } else if a[i].0 == name {
        Some(a[i].1)
    } else {
        attribute(a, i + 1, name)
    }
}

/// The value of the first attribute with a name.
pub fn attr(attrs: &Vec<(String, String)>, name: &str) -> (r: Option<String>)
    ensures
        r.deep_view() == attribute(attrs.deep_view(), 0, name@),
{
    let ghost a = attrs.deep_view();
    let n: usize = attrs.len();
    let mut i: usize = 0;
    while i < n
        invariant
            i <= n,
            n == attrs@.len(),
            a == attrs.deep_view(),
            attribute(a, 0, name@) == attribute(a, i as int, name@),
        decreases n - i,
    {
        assert(a[i as int] == (attrs@[i as int].0@, attrs@[i as int].1@));
        if attrs[i].0.as_str().eq(name) {
            return Some(attrs[i].1.clone());
        }
        i = i + 1;
    }
    None
}

// ---------------------------------------------------------------------------
// Variables
// ---------------------------------------------------------------------------

/// Whether a character may stand in the name of a variable without braces.
pub open spec fn is_name_char(c: char) -> bool {
    'a' <= c <= 'z' || 'A' <= c <= 'Z' || '0' <= c <= '9' || c == '_'
}

fn name_char(c: char) -> (r: bool)
    ensures
        r == is_name_char(c),
{
    ('a' <= c && c <= 'z') || ('A' <= c && c <= 'Z') || ('0' <= c && c <= '9') || c == '_'
}

/// The end of a name without braces.
pub open spec fn plain_name_end(s: Seq<char>, i: int) -> int
    decreases s.len() - i,
{
    if i < 0 || i >= s.len() || !is_name_char(s[i]) {
        i
    } else {
        plain_name_end(s, i + 1)
    }
}

/// The closing brace of a name, or the end.
pub open spec fn brace_end(s: Seq<char>, i: int) -> int
    decreases s.len() - i,
{
    if i < 0 || i >= s.len() || s[i] == '}' {
        i
    } else {
        brace_end(s, i + 1)
    }
}

/// The value of a variable; nothing where it is not set.
pub open spec fn variable(vars: Map<Seq<char>, Seq<char>>, name: Seq<char>) -> Seq<char> {
    if name.len() == 0 {
        "$"@
    } else if vars.contains_key(name) {
        vars[name]
    } else {
        Seq::empty()
    }
}

/// The name of a variable after a dollar sign at a place, and the place after
/// it.
pub open spec fn name_at(s: Seq<char>, i: int) -> (Seq<char>, int) {
    if i + 1 < s.len() && s[i + 1] == '{' {
        let e = brace_end(s, i + 2);
        (
            s.subrange(i + 2, e),
            if e < s.len() {
                e + 1
            } else {
                e
            },
        )
    } else {
        let e = plain_name_end(s, i + 1);
        (s.subrange(i + 1, e), e)
    }
}

/// Text from a place on with its variables put in. A backslash stands before a
/// character that is meant as it is.
pub open spec fn expanded(s: Seq<char>, i: int, vars: Map<Seq<char>, Seq<char>>) -> Seq<char>
    decreases s.len() - i,
{
    if i < 0 || i >= s.len() {
        Seq::empty()
    } else if s[i] == '\\' {
        if i + 1 < s.len() {
            seq![s[i + 1]] + expanded(s, i + 2, vars)
        } else {
            seq!['\\']
        }
    } else if s[i] != '$' {
        seq![s[i]] + expanded(s, i + 1, vars)
    } else {
        let n = name_at(s, i);
        if n.1 <= i || n.1 > s.len() {
            Seq::empty()
        } else {
            variable(vars, n.0) + expanded(s, n.1, vars)
        }
    }
}

fn read_name(v: &[char], i: usize) -> (r: (String, usize))
    requires
        i < v@.len(),
    ensures
        (r.0@, r.1 as int) == name_at(v@, i as int),
        i < r.1 <= v@.len(),
{
    let n: usize = v.len();
    if n - i > 1 && v[i + 1] == '{' {
        let mut e: usize = i + 2;
        while e < n && v[e] != '}'
            invariant
                i + 2 <= e <= n,
                n == v@.len(),
                brace_end(v@, i + 2) == brace_end(v@, e as int),
            decreases n - e,
        {
            e = e + 1;
        }
        let name = string_of(v, i + 2, e);
        if e < n {
            (name, e + 1)
        } else {
            (name, e)
        }
    } else {
        let mut e: usize = i + 1;
        while e < n && name_char(v[e])
            invariant
                i + 1 <= e <= n,
                n == v@.len(),
                plain_name_end(v@, i + 1) == plain_name_end(v@, e as int),
            decreases n - e,
        {
            e = e + 1;
        }
        (string_of(v, i + 1, e), e)
    }
}

/// Text with its variables put in.
pub fn expand(input: &str, vars: &Table<String>) -> (r: String)
    ensures
        r@ == expanded(input@, 0, vars@),
{
    let chars = chars_of(input);
    let v = chars.as_slice();
    let n: usize = v.len();
    let mut out = String::new();
    let mut i: usize = 0;
    assert(out@ + expanded(v@, 0, vars@) =~= expanded(v@, 0, vars@));
    while i < n
        invariant
            i <= n,
            n == v@.len(),
            v@ == input@,
            expanded(v@, 0, vars@) == out@ + expanded(v@, i as int, vars@),
        decreases n - i,
    {
        let ghost was = out@;
        let c: char = v[i];
        if c == '\\' {
            if n - i > 1 {
                let e: char = v[i + 1];
                out.push(e);
                assert(was + (seq![e] + expanded(v@, i + 2, vars@)) =~= out@ + expanded(
                    v@,
                    i + 2,
                    vars@,
                ));
                i = i + 2;
            } else {
                out.push('\\');
                assert(was + seq!['\\'] =~= out@ + expanded(v@, i + 1, vars@));
                i = i + 1;
            }
        } else if c != '$' {
            out.push(c);
            assert(was + (seq![c] + expanded(v@, i + 1, vars@)) =~= out@ + expanded(
                v@,
                i + 1,
                vars@,
            ));
            i = i + 1;
        } else {
            let (name, e) = read_name(v, i);
            if name.as_str().is_empty() {
                out.append("$");
            } else if let Some(value) = vars.get(name.as_str()) {
                out.append(value.as_str());
            }
            assert(out@ =~= was + variable(vars@, name@));
            assert(was + (variable(vars@, name@) + expanded(v@, e as int, vars@)) =~= out@
                + expanded(v@, e as int, vars@));
            i = e;
        }
    }
    assert(out@ + Seq::<char>::empty() =~= out@);
    out
}

// ---------------------------------------------------------------------------
// Writing values out
// ---------------------------------------------------------------------------

/// What stands for a character in HTML.
pub open spec fn entity(c: char) -> Seq<char> {
    if c == '&' {
        "&amp;"@
    } else if c == '<' {
        "&lt;"@
    } else if c == '>' {
        "&gt;"@
    } else if c == '"' {
        "&quot;"@
    } else if c == '\'' {
        "&#39;"@
    } else {
        seq![c]
    }
}

/// Text as it stands for itself in HTML, also within quotes of both kinds.
pub open spec fn entities(s: Seq<char>) -> Seq<char>
    decreases s.len(),
{
    if s.len() == 0 {
        Seq::empty()
    } else {
        entities(s.drop_last()) + entity(s.last())
    }
}

/// Text as it stands for itself in HTML.
pub fn entity_encode(value: &str) -> (r: String)
    ensures
        r@ == entities(value@),
{
    let v = chars_of(value);
    let n: usize = v.len();
    let mut out = String::new();
    let mut i: usize = 0;
    assert(value@.take(0) =~= Seq::empty());
    while i < n
        invariant
            i <= n,
            n == v@.len(),
            v@ == value@,
            out@ == entities(value@.take(i as int)),
        decreases n - i,
    {
        assert(value@.take(i + 1).drop_last() =~= value@.take(i as int));
        let ghost was = out@;
        let c: char = v[i];
        if c == '&' {
            out.append("&amp;");
        } else if c == '<' {
            out.append("&lt;");
        } else if c == '>' {
            out.append("&gt;");
        } else if c == '"' {
            out.append("&quot;");
        } else if c == '\'' {
            out.append("&#39;");
        } else {
            out.push(c);
            assert(out@ =~= was + seq![c]);
        }
        i = i + 1;
    }
    assert(value@.take(n as int) =~= value@);
    out
}

/// Whether a byte stands for itself in a URL.
pub open spec fn is_url_plain(b: u8) -> bool {
    65 <= b <= 90 || 97 <= b <= 122 || 48 <= b <= 57 || b == 45 || b == 95 || b == 46 || b == 126
}

/// A hexadecimal digit in upper case.
pub open spec fn big_digit(d: int) -> char {
    crate::text::upper_char(digit(d))
}

fn big_digit_of(d: u8) -> (r: char)
    requires
        d < 16,
    ensures
        r == big_digit(d as int),
{
    if d < 10 {
        (48 + d) as char
    } else {
        (55 + d) as char
    }
}

/// What stands for a byte in a URL.
pub open spec fn url_byte(b: u8) -> Seq<char> {
    if is_url_plain(b) {
        seq![b as char]
    } else {
        seq!['%', big_digit(b as int / 16), big_digit(b as int % 16)]
    }
}

/// What stands for bytes in a URL.
pub open spec fn url_bytes(b: Seq<u8>) -> Seq<char>
    decreases b.len(),
{
    if b.len() == 0 {
        Seq::empty()
    } else {
        url_bytes(b.drop_last()) + url_byte(b.last())
    }
}

/// Text as it stands for itself in a URL.
pub fn url_encode(value: &str) -> (r: String)
    ensures
        r@ == url_bytes(encode_utf8(value@)),
{
    let b = value.as_bytes();
    let n: usize = b.len();
    let mut out = String::new();
    let mut i: usize = 0;
    assert(b@.take(0) =~= Seq::empty());
    while i < n
        invariant
            i <= n,
            n == b@.len(),
            out@ == url_bytes(b@.take(i as int)),
        decreases n - i,
    {
        assert(b@.take(i + 1).drop_last() =~= b@.take(i as int));
        let ghost was = out@;
        let c: u8 = b[i];
        if (65 <= c && c <= 90) || (97 <= c && c <= 122) || (48 <= c && c <= 57) || c == 45 || c
            == 95 || c == 46 || c == 126 {
            out.push(c as char);
        } else {
            out.push('%');
            out.push(big_digit_of(c / 16));
            out.push(big_digit_of(c % 16));
        }
        assert(out@ =~= was + url_byte(c));
        i = i + 1;
    }
    assert(b@.take(n as int) =~= b@);
    out
}

// ---------------------------------------------------------------------------
// Laws
// ---------------------------------------------------------------------------

/// A value that is written out opens no tag and ends no attribute.
pub proof fn written_values_are_no_markup(s: Seq<char>)
    ensures
        forall|i: int|
            0 <= i < entities(s).len() ==> entities(s)[i] != '<' && entities(s)[i] != '>'
                && entities(s)[i] != '"' && entities(s)[i] != '\'',
    decreases s.len(),
{
    if s.len() > 0 {
        written_values_are_no_markup(s.drop_last());
        reveal_strlit("&amp;");
        reveal_strlit("&lt;");
        reveal_strlit("&gt;");
        reveal_strlit("&quot;");
        reveal_strlit("&#39;");
        let head = entities(s.drop_last());
        let tail = entity(s.last());
        assert forall|i: int| 0 <= i < entities(s).len() implies entities(s)[i] != '<'
            && entities(s)[i] != '>' && entities(s)[i] != '"' && entities(s)[i] != '\'' by {
            if i < head.len() {
                assert(entities(s)[i] == head[i]);
            } else {
                assert(entities(s)[i] == tail[i - head.len()]);
            }
        }
    }
}

/// Text without dollar signs and backslashes is not changed by putting variables
/// in.
pub proof fn plain_text_stays(s: Seq<char>, i: int, vars: Map<Seq<char>, Seq<char>>)
    requires
        0 <= i <= s.len(),
        !s.contains('$'),
        !s.contains('\\'),
    ensures
        expanded(s, i, vars) == s.skip(i),
    decreases s.len() - i,
{
    if i < s.len() {
        assert(s[i] != '$' && s[i] != '\\');
        plain_text_stays(s, i + 1, vars);
        assert(seq![s[i]] + s.skip(i + 1) =~= s.skip(i));
    } else {
        assert(s.skip(i) =~= Seq::empty());
    }
}

} // verus!
