//! What pages with directives come to.

use vstd::prelude::*;

use crate::laws::wording::{is_word, lemma_find_is, lemma_tight};
use crate::outside::lossy_text;
use crate::paths::{extension, parent};
use crate::servers::ssi::{
    directed, echoed, has_directives, marked, may_be_taken, rendered, shown, shows, taken_in,
    wanted, Branch, IncludedView, LibraryView, PageView,
};
use crate::servers::ssi_expr::truth;
use crate::servers::ssi_text::{
    attribute, attributes, bare_end, brace_end, entities, entity, expanded, is_name_char, name_at,
    name_end, past_space, plain_name_end, quoted, url_byte, url_bytes,
};
use crate::text::{find, is_space, lower, stands_at, trim};

verus! {

// ---------------------------------------------------------------------------
// Variables in text
// ---------------------------------------------------------------------------

proof fn lemma_plain_name_shift(a: Seq<char>, b: Seq<char>, i: int)
    requires
        0 <= i,
    ensures
        plain_name_end(a + b, a.len() + i) == a.len() + plain_name_end(b, i),
        brace_end(a + b, a.len() + i) == a.len() + brace_end(b, i),
        i <= b.len() ==> i <= plain_name_end(b, i) <= b.len() && i <= brace_end(b, i) <= b.len(),
        i > b.len() ==> plain_name_end(b, i) == i && brace_end(b, i) == i,
    decreases b.len() - i,
{
    if i < b.len() {
        assert((a + b)[a.len() + i] == b[i]);
        lemma_plain_name_shift(a, b, i + 1);
    }
}

proof fn lemma_name_shift(a: Seq<char>, b: Seq<char>, i: int)
    requires
        0 <= i < b.len(),
    ensures
        name_at(a + b, a.len() + i).0 == name_at(b, i).0,
        name_at(a + b, a.len() + i).1 == a.len() + name_at(b, i).1,
{
    let s = a + b;
    let k = a.len() + i;
    lemma_plain_name_shift(a, b, i + 1);
    lemma_plain_name_shift(a, b, i + 2);
    if i + 1 < b.len() {
        assert(s[k + 1] == b[i + 1]);
    }
    if i + 1 < b.len() && b[i + 1] == '{' {
        let e = brace_end(b, i + 2);
        assert(s.subrange(k + 2, a.len() + e) =~= b.subrange(i + 2, e));
    } else {
        let e = plain_name_end(b, i + 1);
        assert(s.subrange(k + 1, a.len() + e) =~= b.subrange(i + 1, e));
    }
}

/// What stands behind a place is written out as if it stood alone.
pub proof fn lemma_expanded_shift(
    a: Seq<char>,
    b: Seq<char>,
    i: int,
    vars: Map<Seq<char>, Seq<char>>,
)
    requires
        0 <= i,
    ensures
        expanded(a + b, a.len() + i, vars) == expanded(b, i, vars),
    decreases b.len() - i,
{
    let s = a + b;
    let k = a.len() + i;
    if i < b.len() {
        assert(s[k] == b[i]);
        if b[i] == '\\' {
            if i + 1 < b.len() {
                assert(s[k + 1] == b[i + 1]);
                lemma_expanded_shift(a, b, i + 2, vars);
            }
        } else if b[i] != '$' {
            lemma_expanded_shift(a, b, i + 1, vars);
        } else {
            lemma_name_shift(a, b, i);
            let n = name_at(b, i);
            if n.1 > i && n.1 <= b.len() {
                lemma_expanded_shift(a, b, n.1, vars);
            }
        }
    }
}

proof fn lemma_name_ends(s: Seq<char>, i: int, e: int)
    requires
        0 <= i <= e <= s.len(),
        forall|j: int| i <= j < e ==> is_name_char(#[trigger] s[j]),
        e < s.len() ==> !is_name_char(s[e]),
    ensures
        plain_name_end(s, i) == e,
    decreases e - i,
{
    if i < e {
        lemma_name_ends(s, i + 1, e);
    }
}

proof fn lemma_brace_ends(s: Seq<char>, i: int, e: int)
    requires
        0 <= i <= e < s.len(),
        forall|j: int| i <= j < e ==> #[trigger] s[j] != '}',
        s[e] == '}',
    ensures
        brace_end(s, i) == e,
    decreases e - i,
{
    if i < e {
        lemma_brace_ends(s, i + 1, e);
    }
}

/// A dollar sign and a name stand for the value of that variable, with or without braces
/// around the name; a variable that is not set stands for nothing; and a backslash lets
/// the character behind it stand for itself.
pub proof fn names_stand_for_values(
    name: Seq<char>,
    rest: Seq<char>,
    c: char,
    vars: Map<Seq<char>, Seq<char>>,
)
    requires
        name.len() > 0,
        forall|i: int| 0 <= i < name.len() ==> is_name_char(#[trigger] name[i]),
        rest.len() > 0 ==> !is_name_char(rest[0]),
    ensures
        ({
            let v = if vars.contains_key(name) {
                vars[name]
            } else {
                Seq::empty()
            };
            &&& expanded(seq!['$'] + name + rest, 0, vars) == v + expanded(rest, 0, vars)
            &&& expanded(seq!['$', '{'] + name + seq!['}'] + rest, 0, vars) == v + expanded(
                rest,
                0,
                vars,
            )
        }),
        expanded(seq!['\\', c] + rest, 0, vars) == seq![c] + expanded(rest, 0, vars),
{
    let a = seq!['$'] + name;
    let s = a + rest;
    assert(s[0] == '$');
    assert forall|j: int| 1 <= j < a.len() implies is_name_char(#[trigger] s[j]) by {
        assert(s[j] == name[j - 1]);
    }
    if rest.len() > 0 {
        assert(s[a.len() as int] == rest[0]);
    }
    assert(s[1] == name[0]);
    assert(is_name_char(name[0]));
    lemma_name_ends(s, 1, a.len() as int);
    assert(s.subrange(1, a.len() as int) =~= name);
    lemma_expanded_shift(a, rest, 0, vars);
    let b = seq!['$', '{'] + name + seq!['}'];
    let t = b + rest;
    assert(t[0] == '$' && t[1] == '{');
    assert forall|j: int| 2 <= j < 2 + name.len() implies #[trigger] t[j] != '}' by {
        assert(t[j] == name[j - 2]);
        assert(is_name_char(name[j - 2]));
    }
    assert(t[2 + name.len() as int] == '}');
    lemma_brace_ends(t, 2, 2 + name.len() as int);
    assert(t.subrange(2, 2 + name.len() as int) =~= name);
    lemma_expanded_shift(b, rest, 0, vars);
    let e = seq!['\\', c];
    assert((e + rest)[0] == '\\' && (e + rest)[1] == c);
    lemma_expanded_shift(e, rest, 0, vars);
}

/// Text without dollar signs and backslashes stands for itself.
pub proof fn other_text_stands_for_itself(c: char, rest: Seq<char>, vars: Map<Seq<char>, Seq<char>>)
    requires
        c != '$' && c != '\\',
    ensures
        expanded(seq![c] + rest, 0, vars) == seq![c] + expanded(rest, 0, vars),
        expanded(Seq::empty(), 0, vars) == Seq::<char>::empty(),
{
    let a = seq![c];
    assert((a + rest)[0] == c);
    lemma_expanded_shift(a, rest, 0, vars);
}

proof fn lemma_plain(s: Seq<char>, i: int, vars: Map<Seq<char>, Seq<char>>)
    requires
        0 <= i <= s.len(),
        forall|j: int| 0 <= j < s.len() ==> #[trigger] s[j] != '$' && s[j] != '\\',
    ensures
        expanded(s, i, vars) == s.skip(i),
    decreases s.len() - i,
{
    if i < s.len() {
        lemma_plain(s, i + 1, vars);
        assert(seq![s[i]] + s.skip(i + 1) =~= s.skip(i));
    } else {
        assert(s.skip(i) =~= Seq::empty());
    }
}

// ---------------------------------------------------------------------------
// Writing values
// ---------------------------------------------------------------------------

/// Values are written character by character: five characters as their entities, all
/// others as they are.
pub proof fn characters_become_entities(s: Seq<char>, c: char)
    ensures
        entities(s.push('&')) == entities(s) + "&amp;"@,
        entities(s.push('<')) == entities(s) + "&lt;"@,
        entities(s.push('>')) == entities(s) + "&gt;"@,
        entities(s.push('"')) == entities(s) + "&quot;"@,
        entities(s.push('\'')) == entities(s) + "&#39;"@,
        c != '&' && c != '<' && c != '>' && c != '"' && c != '\'' ==> entities(s.push(c))
            == entities(s).push(c),
        entities(Seq::empty()) == Seq::<char>::empty(),
{
    assert(s.push('&').drop_last() =~= s);
    assert(s.push('<').drop_last() =~= s);
    assert(s.push('>').drop_last() =~= s);
    assert(s.push('"').drop_last() =~= s);
    assert(s.push('\'').drop_last() =~= s);
    assert(s.push(c).drop_last() =~= s);
    assert(entities(s) + seq![c] =~= entities(s).push(c));
}

/// For an address letters, digits and four signs are written as they are, and every other
/// byte as a percent sign with two hexadecimal digits in capitals.
pub proof fn bytes_become_escapes(b: Seq<u8>, x: u8)
    ensures
        65 <= x <= 90 || 97 <= x <= 122 || 48 <= x <= 57 || x == 45 || x == 46 || x == 95 || x
            == 126 ==> url_bytes(b.push(x)) == url_bytes(b).push(x as char),
        x == 32 ==> url_bytes(b.push(x)) == url_bytes(b) + seq!['%', '2', '0'],
        x == 47 ==> url_bytes(b.push(x)) == url_bytes(b) + seq!['%', '2', 'F'],
        x == 37 ==> url_bytes(b.push(x)) == url_bytes(b) + seq!['%', '2', '5'],
        x >= 128 ==> url_bytes(b.push(x)).len() == url_bytes(b).len() + 3,
        url_bytes(Seq::empty()) == Seq::<char>::empty(),
{
    assert(b.push(x).drop_last() =~= b);
    assert(url_bytes(b) + seq![x as char] =~= url_bytes(b).push(x as char));
    if x == 32 {
        assert(url_byte(x) =~= seq!['%', '2', '0']);
    }
    if x == 47 {
        assert(url_byte(x) =~= seq!['%', '2', 'F']);
    }
    if x == 37 {
        assert(url_byte(x) =~= seq!['%', '2', '5']);
    }
}

// ---------------------------------------------------------------------------
// Attributes
// ---------------------------------------------------------------------------

proof fn lemma_past_space_is(s: Seq<char>, i: int, e: int)
    requires
        0 <= i <= e <= s.len(),
        forall|j: int| i <= j < e ==> is_space(#[trigger] s[j]),
        e < s.len() ==> !is_space(s[e]),
    ensures
        past_space(s, i) == e,
    decreases e - i,
{
    if i < e {
        lemma_past_space_is(s, i + 1, e);
    }
}

proof fn lemma_name_end_is(s: Seq<char>, i: int, e: int)
    requires
        0 <= i <= e <= s.len(),
        forall|j: int| i <= j < e ==> #[trigger] s[j] != '=' && !is_space(s[j]),
        e < s.len() ==> s[e] == '=' || is_space(s[e]),
    ensures
        name_end(s, i) == e,
    decreases e - i,
{
    if i < e {
        lemma_name_end_is(s, i + 1, e);
    }
}

proof fn lemma_quoted_is(s: Seq<char>, i: int, e: int, quote: char)
    requires
        0 <= i <= e < s.len(),
        quote != '\\',
        forall|j: int| i <= j < e ==> #[trigger] s[j] != '\\' && s[j] != quote,
        s[e] == quote,
    ensures
        quoted(s, i, quote) == (s.subrange(i, e), e + 1),
    decreases e - i,
{
    if i < e {
        lemma_quoted_is(s, i + 1, e, quote);
        assert(seq![s[i]] + s.subrange(i + 1, e) =~= s.subrange(i, e));
    } else {
        assert(s.subrange(i, e) =~= Seq::empty());
    }
}

/// Whether a text can be the name of an attribute.
pub open spec fn is_attribute(name: Seq<char>) -> bool {
    is_word(name) && !name.contains('=')
}

/// Whether a text can stand between quotes as it is.
pub open spec fn is_quotable(v: Seq<char>) -> bool {
    !v.contains('"') && !v.contains('\\')
}

/// An attribute with its value.
pub open spec fn given(name: Seq<char>, v: Seq<char>) -> Seq<char> {
    seq![' '] + name + seq!['=', '"'] + v + seq!['"']
}

/// An attribute that stands at some place is read with its value, and the others after
/// it.
pub proof fn lemma_attribute_at(s: Seq<char>, i: int, name: Seq<char>, v: Seq<char>)
    requires
        is_attribute(name),
        is_quotable(v),
        0 <= i,
        i + given(name, v).len() <= s.len(),
        s.subrange(i, i + given(name, v).len()) == given(name, v),
    ensures
        attributes(s, i) == seq![(lower(name), v)] + attributes(s, i + given(name, v).len()),
{
    let g = given(name, v);
    let n = name.len() as int;
    let w = s.subrange(i, i + g.len());
    assert forall|j: int| 0 <= j < g.len() implies #[trigger] s[i + j] == g[j] by {
        assert(w[j] == s[i + j]);
    }
    assert(s[i + 0] == ' ');
    assert forall|j: int| 0 <= j < n implies #[trigger] name[j] == s[i + 1 + j] by {
        assert(s[i + (1 + j)] == g[1 + j]);
    }
    assert(s[i + (1 + n)] == '=');
    assert(s[i + (2 + n)] == '"');
    assert forall|j: int| 0 <= j < v.len() implies #[trigger] v[j] == s[i + 3 + n + j] by {
        assert(s[i + (3 + n + j)] == g[3 + n + j]);
    }
    assert(s[i + (3 + n + v.len())] == '"');
    assert(name[0] == s[i + 1 + 0]);
    assert(!is_space(name[0]));
    lemma_past_space_is(s, i, i + 1);
    assert forall|j: int| i + 1 <= j < i + 1 + n implies #[trigger] s[j] != '=' && !is_space(s[j]) by {
        let k = j - i - 1;
        assert(name[k] == s[i + 1 + k]);
        assert(name.contains(name[k]));
        assert(!is_space(name[k]));
    }
    lemma_name_end_is(s, i + 1, i + 1 + n);
    assert(s.subrange(i + 1, i + 1 + n) =~= name);
    lemma_past_space_is(s, i + 1 + n, i + 1 + n);
    lemma_past_space_is(s, i + 2 + n, i + 2 + n);
    assert forall|j: int| i + 3 + n <= j < i + 3 + n + v.len() implies #[trigger] s[j] != '\\'
        && s[j] != '"' by {
        let k = j - i - 3 - n;
        assert(v[k] == s[i + 3 + n + k]);
        assert(v.contains(v[k]));
    }
    lemma_quoted_is(s, i + 3 + n, i + 3 + n + v.len(), '"');
    assert(s.subrange(i + 3 + n, i + 3 + n + v.len()) =~= v);
}

proof fn lemma_attributes_end(s: Seq<char>)
    ensures
        attributes(s, s.len() as int) == Seq::<(Seq<char>, Seq<char>)>::empty(),
{
    lemma_past_space_is(s, s.len() as int, s.len() as int);
    lemma_name_end_is(s, s.len() as int, s.len() as int);
}

/// One attribute is read with its value.
pub proof fn attributes_are_read(a: Seq<char>, v: Seq<char>)
    requires
        is_attribute(a),
        is_quotable(v),
    ensures
        attributes(given(a, v), 0) == seq![(lower(a), v)],
{
    let g = given(a, v);
    assert(g.subrange(0, g.len() as int) =~= g);
    lemma_attribute_at(g, 0, a, v);
    lemma_attributes_end(g);
    assert(seq![(lower(a), v)] + Seq::<(Seq<char>, Seq<char>)>::empty() =~= seq![(lower(a), v)]);
}

/// Two attributes are read in their order.
pub proof fn two_attributes_are_read(a: Seq<char>, v: Seq<char>, b: Seq<char>, w: Seq<char>)
    requires
        is_attribute(a),
        is_attribute(b),
        is_quotable(v),
        is_quotable(w),
    ensures
        attributes(given(a, v) + given(b, w), 0) == seq![(lower(a), v), (lower(b), w)],
{
    let g = given(a, v);
    let h = given(b, w);
    let s = g + h;
    let m = g.len() as int;
    assert(s.len() == m + h.len());
    assert(s.subrange(0, m) =~= g);
    assert(s.subrange(m, m + h.len()) =~= h);
    assert(attributes(s, 0) == seq![(lower(a), v)] + attributes(s, m)) by {
        lemma_attribute_at(s, 0, a, v);
    }
    assert(attributes(s, m) == seq![(lower(b), w)] + attributes(s, m + h.len())) by {
        lemma_attribute_at(s, m, b, w);
    }
    assert(attributes(s, m + h.len()) == Seq::<(Seq<char>, Seq<char>)>::empty()) by {
        lemma_attributes_end(s);
    }
    assert(seq![(lower(a), v)] + (seq![(lower(b), w)] + Seq::<(Seq<char>, Seq<char>)>::empty())
        =~= seq![(lower(a), v), (lower(b), w)]);
}

// ---------------------------------------------------------------------------
// Directives
// ---------------------------------------------------------------------------

proof fn lemma_bare_end_is(s: Seq<char>, i: int, e: int)
    requires
        0 <= i <= e <= s.len(),
        forall|j: int| i <= j < e ==> !is_space(#[trigger] s[j]),
        e < s.len() ==> is_space(s[e]),
    ensures
        bare_end(s, i) == e,
    decreases e - i,
{
    if i < e {
        lemma_bare_end_is(s, i + 1, e);
    }
}

/// A directive is its name and what stands behind it.
proof fn lemma_parts(name: Seq<char>, rest: Seq<char>)
    requires
        is_word(name),
        rest.len() > 0 ==> rest[0] == ' ' && !is_space(rest.last()),
    ensures
        ({
            let t = trim(name + rest);
            let b = bare_end(t, 0);
            t.take(b) == name && t.skip(b) == rest
        }),
{
    let s = name + rest;
    assert(!is_space(name[0]) && !is_space(name[name.len() - 1]));
    assert(s[0] == name[0]);
    if rest.len() > 0 {
        assert(s.last() == rest.last());
        assert(s[name.len() as int] == rest[0]);
    } else {
        assert(s.last() == name.last());
    }
    lemma_tight(s);
    assert forall|j: int| 0 <= j < name.len() implies !is_space(#[trigger] s[j]) by {
        assert(s[j] == name[j]);
    }
    lemma_bare_end_is(s, 0, name.len() as int);
    assert(s.take(name.len() as int) =~= name);
    assert(s.skip(name.len() as int) =~= rest);
}

proof fn lemma_given_ends(a: Seq<char>, v: Seq<char>)
    ensures
        given(a, v).len() > 0,
        given(a, v)[0] == ' ',
        given(a, v).last() == '"',
{
}

proof fn lemma_names()
    ensures
        is_word("if"@) && is_word("elif"@) && is_word("else"@) && is_word("endif"@) && is_word(
            "echo"@,
        ) && is_word("set"@),
        lower("if"@) == "if"@ && lower("elif"@) == "elif"@ && lower("else"@) == "else"@ && lower(
            "endif"@,
        ) == "endif"@ && lower("echo"@) == "echo"@ && lower("set"@) == "set"@,
        "elif"@ != "if"@ && "else"@ != "if"@ && "endif"@ != "if"@ && "echo"@ != "if"@ && "set"@
            != "if"@,
        "else"@ != "elif"@ && "endif"@ != "elif"@ && "echo"@ != "elif"@ && "set"@ != "elif"@,
        "endif"@ != "else"@ && "echo"@ != "else"@ && "set"@ != "else"@,
        "echo"@ != "endif"@ && "set"@ != "endif"@ && "set"@ != "echo"@,
        "echo"@.len() == 4 && "set"@.len() == 3,
        "echo"@ != "include"@ && "set"@ != "include"@,
{
    reveal_strlit("if");
    reveal_strlit("elif");
    reveal_strlit("else");
    reveal_strlit("endif");
    reveal_strlit("echo");
    reveal_strlit("set");
    reveal_strlit("include");
    assert(lower("if"@) =~= "if"@);
    assert(lower("elif"@) =~= "elif"@);
    assert(lower("else"@) =~= "else"@);
    assert(lower("endif"@) =~= "endif"@);
    assert(lower("echo"@) =~= "echo"@);
    assert(lower("set"@) =~= "set"@);
    assert("if"@.len() == 2 && "elif"@.len() == 4 && "else"@.len() == 4 && "endif"@.len() == 5
        && "echo"@.len() == 4 && "set"@.len() == 3 && "include"@.len() == 7);
    assert("elif"@[2] == 'i' && "else"@[2] == 's' && "echo"@[2] == 'h');
}

proof fn lemma_attribute_names()
    ensures
        is_attribute("expr"@) && is_attribute("var"@) && is_attribute("value"@) && is_attribute(
            "encoding"@,
        ),
        lower("expr"@) == "expr"@ && lower("var"@) == "var"@ && lower("value"@) == "value"@
            && lower("encoding"@) == "encoding"@,
        "var"@ != "value"@ && "var"@ != "encoding"@ && "value"@ != "encoding"@,
{
    reveal_strlit("expr");
    reveal_strlit("var");
    reveal_strlit("value");
    reveal_strlit("encoding");
    assert(lower("expr"@) =~= "expr"@);
    assert(lower("var"@) =~= "var"@);
    assert(lower("value"@) =~= "value"@);
    assert(lower("encoding"@) =~= "encoding"@);
    assert("expr"@.len() == 4 && "var"@.len() == 3 && "value"@.len() == 5 && "encoding"@.len()
        == 8);
}

/// Whether a text is shown as it is: nothing in it is written out, and it can stand in
/// quotes.
pub open spec fn is_literal(v: Seq<char>) -> bool {
    forall|j: int| 0 <= j < v.len() ==> #[trigger] v[j] != '$' && v[j] != '\\' && v[j] != '"'
}

proof fn lemma_literal(v: Seq<char>, vars: Map<Seq<char>, Seq<char>>)
    requires
        is_literal(v),
    ensures
        is_quotable(v),
        expanded(v, 0, vars) == v,
{
    lemma_plain(v, 0, vars);
    assert(v.skip(0) =~= v);
}

proof fn lemma_echo(l: LibraryView, rest: Seq<char>, dir: Seq<char>, depth: int, p: PageView)
    requires
        rest.len() > 0 && rest[0] == ' ' && !is_space(rest.last()),
        shows(p.stack),
    ensures
        directed(l, "echo"@ + rest, dir, depth, p) == Ok::<PageView, Seq<char>>(
            echoed(p, attributes(rest, 0)),
        ),
{
    lemma_names();
    lemma_parts("echo"@, rest);
}

/// A variable is shown with its entities, and one that is not set as `(none)`.
pub proof fn variables_are_shown(
    l: LibraryView,
    name: Seq<char>,
    dir: Seq<char>,
    depth: int,
    p: PageView,
)
    requires
        is_word(name),
        is_literal(name),
        shows(p.stack),
    ensures
        p.vars.contains_key(name) ==> directed(l, "echo"@ + given("var"@, name), dir, depth, p)
            == Ok::<PageView, Seq<char>>(
            PageView { out: p.out + entities(p.vars[name]), ..p },
        ),
        !p.vars.contains_key(name) ==> directed(l, "echo"@ + given("var"@, name), dir, depth, p)
            == Ok::<PageView, Seq<char>>(
            PageView { out: p.out + entities("(none)"@), ..p },
        ),
{
    lemma_attribute_names();
    lemma_literal(name, p.vars);
    lemma_given_ends("var"@, name);
    lemma_echo(l, given("var"@, name), dir, depth, p);
    attributes_are_read("var"@, name);
    assert(!is_space(name[0]) && !is_space(name[name.len() - 1]));
    lemma_tight(name);
    let one = seq![("var"@, name)];
    assert(one[0].0 == "var"@ && one[0].1 == name);
    assert(attribute(one, 0, "var"@) == Some(name));
    assert(attribute(one, 0, "encoding"@) is None) by {
        reveal_with_fuel(attribute, 3);
    }
}

/// A variable is shown as it is where no encoding is asked for, and as for an address
/// where that is; another encoding than these leaves a note.
pub proof fn variables_are_shown_as_asked(
    l: LibraryView,
    name: Seq<char>,
    encoding: Seq<char>,
    dir: Seq<char>,
    depth: int,
    p: PageView,
)
    requires
        is_word(name),
        is_literal(name),
        is_literal(encoding),
        shows(p.stack),
        p.vars.contains_key(name),
    ensures
        ({
            let r = directed(
                l,
                "echo"@ + (given("var"@, name) + given("encoding"@, encoding)),
                dir,
                depth,
                p,
            );
            &&& lower(encoding) == "none"@ ==> r == Ok::<PageView, Seq<char>>(
                PageView { out: p.out + p.vars[name], ..p },
            )
            &&& lower(encoding) == "entity"@ ==> r == Ok::<PageView, Seq<char>>(
                PageView { out: p.out + entities(p.vars[name]), ..p },
            )
            &&& lower(encoding) == "url"@ ==> r == Ok::<PageView, Seq<char>>(
                PageView {
                    out: p.out + url_bytes(vstd::utf8::encode_utf8(p.vars[name])),
                    ..p
                },
            )
            &&& lower(encoding) != "none"@ && lower(encoding) != "entity"@ && lower(encoding)
                != "url"@ ==> r == Ok::<PageView, Seq<char>>(marked(p))
        }),
{
    lemma_attribute_names();
    lemma_literal(name, p.vars);
    lemma_literal(encoding, p.vars);
    let g = given("var"@, name);
    let h = given("encoding"@, encoding);
    lemma_given_ends("var"@, name);
    lemma_given_ends("encoding"@, encoding);
    assert((g + h)[0] == ' ' && (g + h).last() == '"');
    lemma_echo(l, g + h, dir, depth, p);
    two_attributes_are_read("var"@, name, "encoding"@, encoding);
    assert(!is_space(name[0]) && !is_space(name[name.len() - 1]));
    lemma_tight(name);
    let two = seq![("var"@, name), ("encoding"@, encoding)];
    assert(two[0].0 == "var"@ && two[0].1 == name);
    assert(two[1].0 == "encoding"@ && two[1].1 == encoding);
    assert(attribute(two, 0, "var"@) == Some(name));
    assert(attribute(two, 0, "encoding"@) == Some(encoding)) by {
        reveal_with_fuel(attribute, 3);
    }
    reveal_strlit("none");
    reveal_strlit("url");
    reveal_strlit("entity");
    assert("none"@.len() == 4 && "url"@.len() == 3 && "entity"@.len() == 6);
}

/// A variable that is set has its value from there on.
pub proof fn variables_are_set(
    l: LibraryView,
    name: Seq<char>,
    value: Seq<char>,
    dir: Seq<char>,
    depth: int,
    p: PageView,
)
    requires
        is_word(name),
        is_literal(name),
        is_literal(value),
        shows(p.stack),
    ensures
        directed(l, "set"@ + (given("var"@, name) + given("value"@, value)), dir, depth, p) == Ok::<
            PageView,
            Seq<char>,
        >(PageView { vars: p.vars.insert(name, value), ..p }),
{
    lemma_names();
    lemma_attribute_names();
    lemma_literal(name, p.vars);
    lemma_literal(value, p.vars);
    let g = given("var"@, name);
    let h = given("value"@, value);
    lemma_given_ends("var"@, name);
    lemma_given_ends("value"@, value);
    assert((g + h)[0] == ' ' && (g + h).last() == '"');
    lemma_parts("set"@, g + h);
    two_attributes_are_read("var"@, name, "value"@, value);
    assert(!is_space(name[0]) && !is_space(name[name.len() - 1]));
    lemma_tight(name);
    let two = seq![("var"@, name), ("value"@, value)];
    reveal_with_fuel(attribute, 4);
    assert(attribute(two, 0, "var"@) == Some(name));
    assert(attribute(two, 0, "value"@) == Some(value));
}

/// A condition shows what follows it where it holds, and hides it where it does not.
pub proof fn conditions_show_and_hide(
    l: LibraryView,
    e: Seq<char>,
    b: bool,
    dir: Seq<char>,
    depth: int,
    p: PageView,
)
    requires
        is_literal(e),
        truth(e) == Some(b),
        shows(p.stack),
    ensures
        directed(l, "if"@ + given("expr"@, e), dir, depth, p) == Ok::<PageView, Seq<char>>(
            PageView { stack: p.stack.push(Branch { taken: b, emitting: b }), ..p },
        ),
{
    lemma_names();
    lemma_attribute_names();
    lemma_literal(e, p.vars);
    lemma_given_ends("expr"@, e);
    lemma_parts("if"@, given("expr"@, e));
    attributes_are_read("expr"@, e);
    let one = seq![("expr"@, e)];
    reveal_with_fuel(attribute, 2);
    assert(attribute(one, 0, "expr"@) == Some(e));
}

/// Behind a condition another one counts only where none before it held.
pub proof fn other_conditions_count_after_it(
    l: LibraryView,
    e: Seq<char>,
    b: bool,
    dir: Seq<char>,
    depth: int,
    p: PageView,
    above: Seq<Branch>,
    before: Branch,
)
    requires
        is_literal(e),
        truth(e) == Some(b),
        shows(above),
        p.stack == above.push(before),
    ensures
        !before.taken ==> directed(l, "elif"@ + given("expr"@, e), dir, depth, p) == Ok::<
            PageView,
            Seq<char>,
        >(PageView { stack: above.push(Branch { taken: b, emitting: b }), ..p }),
        before.taken ==> directed(l, "elif"@ + given("expr"@, e), dir, depth, p) == Ok::<
            PageView,
            Seq<char>,
        >(PageView { stack: above.push(Branch { taken: true, emitting: false }), ..p }),
{
    lemma_names();
    lemma_attribute_names();
    lemma_literal(e, p.vars);
    lemma_given_ends("expr"@, e);
    lemma_parts("elif"@, given("expr"@, e));
    attributes_are_read("expr"@, e);
    let one = seq![("expr"@, e)];
    reveal_with_fuel(attribute, 2);
    assert(attribute(one, 0, "expr"@) == Some(e));
    assert(p.stack.drop_last() =~= above);
}

/// What is left is shown where no condition held; and after the end all is as it was
/// before the condition.
pub proof fn conditions_have_an_end(
    l: LibraryView,
    dir: Seq<char>,
    depth: int,
    p: PageView,
    above: Seq<Branch>,
    before: Branch,
)
    requires
        p.stack == above.push(before),
    ensures
        directed(l, "else"@, dir, depth, p) == Ok::<PageView, Seq<char>>(
            PageView {
                stack: above.push(
                    Branch { taken: true, emitting: !before.taken && shows(above) },
                ),
                ..p
            },
        ),
        directed(l, "endif"@, dir, depth, p) == Ok::<PageView, Seq<char>>(
            PageView { stack: above, ..p },
        ),
{
    lemma_names();
    let none = Seq::<char>::empty();
    lemma_parts("else"@, none);
    lemma_parts("endif"@, none);
    assert("else"@ + none =~= "else"@);
    assert("endif"@ + none =~= "endif"@);
    assert(p.stack.drop_last() =~= above);
}

// ---------------------------------------------------------------------------
// Pages
// ---------------------------------------------------------------------------

/// A directive as it stands in a page.
pub open spec fn tagged(text: Seq<char>) -> Seq<char> {
    seq!['<', '!', '-', '-', '#'] + text + seq![' ', '-', '-', '>']
}

/// Whether a text holds nothing of a directive.
pub open spec fn is_plain(s: Seq<char>) -> bool {
    !s.contains('<')
}

/// Text up to a directive is shown, the directive is carried out, and the page goes on
/// behind it.
pub proof fn lemma_step(
    l: LibraryView,
    src: Seq<char>,
    i: int,
    plain: Seq<char>,
    text: Seq<char>,
    dir: Seq<char>,
    depth: int,
    p: PageView,
)
    requires
        is_plain(plain),
        !text.contains('-'),
        0 <= i,
        i + (plain + tagged(text)).len() <= src.len(),
        src.subrange(i, i + (plain + tagged(text)).len()) == plain + tagged(text),
    ensures
        rendered(l, src, i, dir, depth, p) == (match directed(
            l,
            text + seq![' '],
            dir,
            depth,
            shown(p, plain),
        ) {
            Err(x) => Err(x),
            Ok(r) => rendered(l, src, i + (plain + tagged(text)).len(), dir, depth, r),
        }),
{
    let g = plain + tagged(text);
    let w = src.subrange(i, i + g.len());
    reveal_strlit("<!--#");
    reveal_strlit("-->");
    let k = i + plain.len();
    let e = k + 5 + text.len() + 1;
    assert forall|j: int| 0 <= j < g.len() implies #[trigger] src[i + j] == g[j] by {
        assert(w[j] == src[i + j]);
    }
    assert(src.subrange(k, k + 5) =~= "<!--#"@) by {
        assert forall|j: int| 0 <= j < 5 implies #[trigger] src.subrange(k, k + 5)[j]
            == "<!--#"@[j] by {
            assert(src[i + (plain.len() + j)] == g[plain.len() + j]);
        }
    }
    assert forall|j: int| i <= j < k implies !stands_at(src, "<!--#"@, j) by {
        assert(src[i + (j - i)] == g[j - i]);
        assert(g[j - i] == plain[j - i]);
        assert(plain.contains(plain[j - i]));
        if stands_at(src, "<!--#"@, j) {
            assert(src.subrange(j, j + 5)[0] == src[j]);
        }
    }
    lemma_find_is(src, "<!--#"@, i, k);
    let n = text.len() as int;
    assert(src.subrange(e, e + 3) =~= "-->"@) by {
        assert forall|j: int| 0 <= j < 3 implies #[trigger] src.subrange(e, e + 3)[j]
            == "-->"@[j] by {
            assert(src[i + (plain.len() + 5 + n + 1 + j)] == g[plain.len() + 5 + n + 1 + j]);
        }
    }
    assert forall|j: int| k + 5 <= j < e implies !stands_at(src, "-->"@, j) by {
        let m = j - k - 5;
        assert(src[i + (plain.len() + 5 + m)] == g[plain.len() + 5 + m]);
        if m < n {
            assert(g[plain.len() + 5 + m] == text[m]);
            assert(text.contains(text[m]));
        }
        if stands_at(src, "-->"@, j) {
            assert(src.subrange(j, j + 3)[0] == src[j]);
        }
    }
    lemma_find_is(src, "-->"@, k + 5, e);
    assert(src.subrange(i, k) =~= plain) by {
        assert forall|j: int| 0 <= j < plain.len() implies #[trigger] src.subrange(i, k)[j]
            == plain[j] by {
            assert(src[i + j] == g[j]);
        }
    }
    assert(src.subrange(k + 5, e) =~= text + seq![' ']) by {
        assert forall|j: int| 0 <= j < n + 1 implies #[trigger] src.subrange(k + 5, e)[j] == (text
            + seq![' '])[j] by {
            assert(src[i + (plain.len() + 5 + j)] == g[plain.len() + 5 + j]);
        }
    }
}

proof fn lemma_rest(
    l: LibraryView,
    src: Seq<char>,
    i: int,
    plain: Seq<char>,
    dir: Seq<char>,
    depth: int,
    p: PageView,
)
    requires
        is_plain(plain),
        0 <= i <= src.len(),
        src.skip(i) == plain,
    ensures
        rendered(l, src, i, dir, depth, p) == Ok::<PageView, Seq<char>>(shown(p, plain)),
{
    reveal_strlit("<!--#");
    crate::text::lemma_find(src, "<!--#"@, i);
    if let Some(k) = find(src, "<!--#"@, i) {
        assert(src.subrange(k, k + 5)[0] == src[k]);
        assert(src.skip(i)[k - i] == src[k]);
        assert(plain.contains('<'));
    }
}

proof fn lemma_space_behind(
    l: LibraryView,
    text: Seq<char>,
    dir: Seq<char>,
    depth: int,
    p: PageView,
)
    requires
        text.len() > 0,
        !is_space(text[0]) && !is_space(text.last()),
    ensures
        directed(l, text + seq![' '], dir, depth, p) == directed(l, text, dir, depth, p),
{
    let none = Seq::<char>::empty();
    crate::laws::wording::trimming_takes_space_away(none, text, seq![' ']);
    assert(none + text + seq![' '] =~= text + seq![' ']);
    lemma_tight(text);
}

/// Of two texts the one is shown where the condition holds, and the other where it does
/// not; and what stands around them is shown either way.
pub proof fn one_of_two_texts_is_shown(
    l: LibraryView,
    e: Seq<char>,
    b: bool,
    a: Seq<char>,
    yes: Seq<char>,
    no: Seq<char>,
    z: Seq<char>,
    dir: Seq<char>,
    vars: Map<Seq<char>, Seq<char>>,
)
    requires
        is_literal(e),
        !e.contains('-'),
        truth(e) == Some(b),
        is_plain(a),
        is_plain(yes),
        is_plain(no),
        is_plain(z),
    ensures
        ({
            let src = a + tagged("if"@ + given("expr"@, e)) + (yes + tagged("else"@)) + (no
                + tagged("endif"@)) + z;
            let start = PageView { vars, stack: Seq::empty(), out: Seq::empty() };
            rendered(l, src, 0, dir, 0, start) == Ok::<PageView, Seq<char>>(
                PageView {
                    vars,
                    stack: Seq::empty(),
                    out: a + (if b {
                        yes
                    } else {
                        no
                    }) + z,
                },
            )
        }),
{
    lemma_names();
    let iff = "if"@ + given("expr"@, e);
    let p1 = a + tagged(iff);
    let p2 = yes + tagged("else"@);
    let p3 = no + tagged("endif"@);
    let src = p1 + p2 + p3 + z;
    let start = PageView { vars, stack: Seq::empty(), out: Seq::empty() };
    let none = Seq::<Branch>::empty();
    assert(src.subrange(0, p1.len() as int) =~= p1);
    assert(src.subrange(p1.len() as int, (p1.len() + p2.len()) as int) =~= p2);
    assert(src.subrange(
        (p1.len() + p2.len()) as int,
        (p1.len() + p2.len() + p3.len()) as int,
    ) =~= p3);
    assert(src.skip((p1.len() + p2.len() + p3.len()) as int) =~= z);
    reveal_strlit("if");
    reveal_strlit("expr");
    reveal_strlit("else");
    reveal_strlit("endif");
    assert(!iff.contains('-')) by {
        if iff.contains('-') {
            let j = choose|j: int| 0 <= j < iff.len() && iff[j] == '-';
            let k = j - 2 - 1 - 4 - 2;
            if 0 <= k < e.len() {
                assert(e[k] == '-');
                assert(e.contains('-'));
            }
        }
    }
    assert(!"else"@.contains('-'));
    assert(!"endif"@.contains('-'));
    lemma_given_ends("expr"@, e);
    assert(iff[0] == 'i' && iff.last() == '"');
    let s1 = shown(start, a);
    lemma_step(l, src, 0, a, iff, dir, 0, start);
    lemma_space_behind(l, iff, dir, 0, s1);
    conditions_show_and_hide(l, e, b, dir, 0, s1);
    let q1 = PageView { stack: none.push(Branch { taken: b, emitting: b }), ..s1 };
    assert(s1.out =~= a);
    assert(rendered(l, src, 0, dir, 0, start) == rendered(
        l,
        src,
        p1.len() as int,
        dir,
        0,
        q1,
    ));
    let s2 = shown(q1, yes);
    lemma_step(l, src, p1.len() as int, yes, "else"@, dir, 0, q1);
    lemma_space_behind(l, "else"@, dir, 0, s2);
    conditions_have_an_end(l, dir, 0, s2, none, Branch { taken: b, emitting: b });
    let q2 = PageView { stack: none.push(Branch { taken: true, emitting: !b }), ..s2 };
    assert(rendered(l, src, p1.len() as int, dir, 0, q1) == rendered(
        l,
        src,
        (p1.len() + p2.len()) as int,
        dir,
        0,
        q2,
    ));
    let s3 = shown(q2, no);
    lemma_step(l, src, (p1.len() + p2.len()) as int, no, "endif"@, dir, 0, q2);
    lemma_space_behind(l, "endif"@, dir, 0, s3);
    conditions_have_an_end(l, dir, 0, s3, none, Branch { taken: true, emitting: !b });
    let q3 = PageView { stack: none, ..s3 };
    assert(rendered(l, src, (p1.len() + p2.len()) as int, dir, 0, q2) == rendered(
        l,
        src,
        (p1.len() + p2.len() + p3.len()) as int,
        dir,
        0,
        q3,
    ));
    lemma_rest(l, src, (p1.len() + p2.len() + p3.len()) as int, z, dir, 0, q3);
}

/// A variable that a page sets is shown where the page asks for it.
pub proof fn what_is_set_is_shown(
    l: LibraryView,
    name: Seq<char>,
    value: Seq<char>,
    a: Seq<char>,
    m: Seq<char>,
    z: Seq<char>,
    dir: Seq<char>,
    vars: Map<Seq<char>, Seq<char>>,
)
    requires
        is_word(name),
        is_literal(name),
        is_literal(value),
        !name.contains('-'),
        !value.contains('-'),
        is_plain(a),
        is_plain(m),
        is_plain(z),
    ensures
        ({
            let src = a + tagged("set"@ + (given("var"@, name) + given("value"@, value))) + (m
                + tagged("echo"@ + given("var"@, name))) + z;
            let start = PageView { vars, stack: Seq::empty(), out: Seq::empty() };
            rendered(l, src, 0, dir, 0, start) == Ok::<PageView, Seq<char>>(
                PageView {
                    vars: vars.insert(name, value),
                    stack: Seq::empty(),
                    out: a + m + entities(value) + z,
                },
            )
        }),
{
    let t1 = "set"@ + (given("var"@, name) + given("value"@, value));
    let t2 = "echo"@ + given("var"@, name);
    let p1 = a + tagged(t1);
    let p2 = m + tagged(t2);
    let src = p1 + p2 + z;
    let start = PageView { vars, stack: Seq::empty(), out: Seq::empty() };
    assert(src.subrange(0, p1.len() as int) =~= p1);
    assert(src.subrange(p1.len() as int, (p1.len() + p2.len()) as int) =~= p2);
    assert(src.skip((p1.len() + p2.len()) as int) =~= z);
    reveal_strlit("set");
    reveal_strlit("var");
    reveal_strlit("value");
    reveal_strlit("echo");
    lemma_given_no_hyphen("var"@, name);
    lemma_given_no_hyphen("value"@, value);
    lemma_no_hyphen(given("var"@, name), given("value"@, value));
    lemma_no_hyphen("set"@, given("var"@, name) + given("value"@, value));
    lemma_no_hyphen("echo"@, given("var"@, name));
    lemma_given_ends("var"@, name);
    lemma_given_ends("value"@, value);
    assert(t1[0] == 's' && t1.last() == '"');
    assert(t2[0] == 'e' && t2.last() == '"');
    let s1 = shown(start, a);
    lemma_step(l, src, 0, a, t1, dir, 0, start);
    lemma_space_behind(l, t1, dir, 0, s1);
    variables_are_set(l, name, value, dir, 0, s1);
    let q1 = PageView { vars: vars.insert(name, value), ..s1 };
    assert(s1.out =~= a);
    let s2 = shown(q1, m);
    lemma_step(l, src, p1.len() as int, m, t2, dir, 0, q1);
    lemma_space_behind(l, t2, dir, 0, s2);
    variables_are_shown(l, name, dir, 0, s2);
    let q2 = PageView { out: s2.out + entities(value), ..s2 };
    lemma_rest(l, src, (p1.len() + p2.len()) as int, z, dir, 0, q2);
}

proof fn lemma_no_hyphen(a: Seq<char>, b: Seq<char>)
    requires
        !a.contains('-'),
        !b.contains('-'),
    ensures
        !(a + b).contains('-'),
{
    let s = a + b;
    if s.contains('-') {
        let j = choose|j: int| 0 <= j < s.len() && s[j] == '-';
        if j < a.len() {
            assert(a[j] == '-');
        } else {
            assert(b[j - a.len()] == '-');
        }
    }
}

proof fn lemma_given_no_hyphen(n: Seq<char>, v: Seq<char>)
    requires
        !n.contains('-'),
        !v.contains('-'),
    ensures
        !given(n, v).contains('-'),
{
    let a = seq![' '];
    let b = seq!['=', '"'];
    let c = seq!['"'];
    assert(!a.contains('-'));
    assert(!b.contains('-'));
    assert(!c.contains('-'));
    lemma_no_hyphen(a, n);
    lemma_no_hyphen(a + n, b);
    lemma_no_hyphen(a + n + b, v);
    lemma_no_hyphen(a + n + b + v, c);
}

/// Only files with certain endings are pages with directives, in letters of any case.
pub proof fn endings_make_pages(path: Seq<char>, known: Seq<Seq<char>>, ending: Seq<char>)
    ensures
        extension(path) == Some(ending) ==> (has_directives(path, known) <==> known.contains(
            seq!['.'] + lower(ending),
        )),
        extension(path) is None ==> !has_directives(path, known),
{
    reveal_strlit(".");
    assert("."@ =~= seq!['.']);
}

/// Other files are taken in where they may be, and rendered in their turn; one that is
/// not known yet is asked for; and one that may not be taken leaves a note.
pub proof fn other_files_are_taken_in(
    l: LibraryView,
    a: Seq<(Seq<char>, Seq<char>)>,
    dir: Seq<char>,
    depth: int,
    p: PageView,
    path: Seq<char>,
    f: IncludedView,
)
    requires
        0 <= depth,
    ensures
        depth >= 16 ==> taken_in(l, a, dir, depth, p) == Ok::<PageView, Seq<char>>(marked(p)),
        depth < 16 && wanted(l, a, dir, p.vars) is None ==> taken_in(l, a, dir, depth, p) == Ok::<
            PageView,
            Seq<char>,
        >(marked(p)),
        depth < 16 && wanted(l, a, dir, p.vars) == Some(path) && !l.files.contains_key(path)
            ==> taken_in(l, a, dir, depth, p) == Err::<PageView, Seq<char>>(path),
        depth < 16 && wanted(l, a, dir, p.vars) == Some(path) && l.files.contains_key(path)
            && l.files[path] is None ==> taken_in(l, a, dir, depth, p) == Ok::<
            PageView,
            Seq<char>,
        >(marked(p)),
        depth < 16 && wanted(l, a, dir, p.vars) == Some(path) && l.files.contains_key(path)
            && l.files[path] == Some(f) && !may_be_taken(l, f) ==> taken_in(l, a, dir, depth, p)
            == Ok::<PageView, Seq<char>>(marked(p)),
{
}


/// A file that is taken in and holds no directives stands in the page as it is; one that
/// leaves a condition open leaves a note behind it.
pub proof fn plain_files_stand_in_the_page(
    l: LibraryView,
    a: Seq<(Seq<char>, Seq<char>)>,
    dir: Seq<char>,
    depth: int,
    p: PageView,
    path: Seq<char>,
    f: IncludedView,
    bytes: Seq<u8>,
)
    requires
        0 <= depth < 16,
        wanted(l, a, dir, p.vars) == Some(path),
        l.files.contains_key(path),
        l.files[path] == Some(f),
        may_be_taken(l, f),
        f.bytes == Some(bytes),
        is_plain(lossy_text(bytes)),
    ensures
        taken_in(l, a, dir, depth, p) == Ok::<PageView, Seq<char>>(
            PageView { out: p.out + lossy_text(bytes), ..p },
        ),
{
    let text = lossy_text(bytes);
    let inner = PageView { stack: Seq::empty(), ..p };
    let from = match parent(f.path) {
        Some(d) => d,
        None => l.root,
    };
    assert(text.skip(0) =~= text);
    lemma_rest(l, text, 0, text, from, depth + 1, inner);
}

/// A directive that nobody knows leaves a note, and so does one that does not end, a
/// branch without its condition, and a condition that is left open.
pub proof fn odd_directives_leave_a_note(
    l: LibraryView,
    name: Seq<char>,
    dir: Seq<char>,
    depth: int,
    p: PageView,
)
    requires
        is_word(name),
    ensures
        shows(p.stack) && lower(name) == "exec"@ ==> directed(l, name, dir, depth, p) == Ok::<
            PageView,
            Seq<char>,
        >(marked(p)),
        shows(p.stack) && lower(name) == "printenv"@ ==> directed(l, name, dir, depth, p) == Ok::<
            PageView,
            Seq<char>,
        >(marked(p)),
        p.stack.len() == 0 && lower(name) == "else"@ ==> directed(l, name, dir, depth, p) == Ok::<
            PageView,
            Seq<char>,
        >(marked(p)),
        p.stack.len() == 0 && lower(name) == "elif"@ ==> directed(l, name, dir, depth, p) == Ok::<
            PageView,
            Seq<char>,
        >(marked(p)),
        p.stack.len() == 0 && lower(name) == "endif"@ ==> directed(l, name, dir, depth, p) == Ok::<
            PageView,
            Seq<char>,
        >(marked(p)),
        !shows(p.stack) && lower(name) == "echo"@ ==> directed(l, name, dir, depth, p) == Ok::<
            PageView,
            Seq<char>,
        >(p),
        marked(p).out == p.out + "[an error occurred while processing this directive]"@,
        marked(p).vars == p.vars && marked(p).stack == p.stack,
{
    lemma_names();
    reveal_strlit("exec");
    reveal_strlit("printenv");
    reveal_strlit("if");
    reveal_strlit("elif");
    reveal_strlit("else");
    reveal_strlit("endif");
    reveal_strlit("include");
    reveal_strlit("echo");
    reveal_strlit("set");
    assert("exec"@.len() == 4 && "printenv"@.len() == 8 && "if"@.len() == 2 && "elif"@.len() == 4
        && "else"@.len() == 4 && "endif"@.len() == 5 && "include"@.len() == 7 && "echo"@.len() == 4
        && "set"@.len() == 3);
    assert("exec"@[1] == 'x' && "elif"@[1] == 'l' && "else"@[1] == 'l' && "echo"@[1] == 'c');
    let none = Seq::<char>::empty();
    lemma_parts(name, none);
    assert(name + none =~= name);
}

/// A page whose directive does not end is shown up to there, with a note.
pub proof fn unended_directives_leave_a_note(
    l: LibraryView,
    plain: Seq<char>,
    text: Seq<char>,
    dir: Seq<char>,
    depth: int,
    p: PageView,
)
    requires
        is_plain(plain),
        !text.contains('>'),
        shows(p.stack),
    ensures
        rendered(l, plain + seq!['<', '!', '-', '-', '#'] + text, 0, dir, depth, p) == Ok::<
            PageView,
            Seq<char>,
        >(marked(PageView { out: p.out + plain, ..p })),
{
    let src = plain + seq!['<', '!', '-', '-', '#'] + text;
    reveal_strlit("<!--#");
    reveal_strlit("-->");
    let k = plain.len() as int;
    assert(src.subrange(k, k + 5) =~= "<!--#"@);
    assert forall|j: int| 0 <= j < k implies !stands_at(src, "<!--#"@, j) by {
        assert(src[j] == plain[j]);
        assert(plain.contains(plain[j]));
        if stands_at(src, "<!--#"@, j) {
            assert(src.subrange(j, j + 5)[0] == src[j]);
        }
    }
    lemma_find_is(src, "<!--#"@, 0, k);
    crate::text::lemma_find(src, "-->"@, k + 5);
    if let Some(e) = find(src, "-->"@, k + 5) {
        assert(src.subrange(e, e + 3)[2] == src[e + 2]);
        assert(text[e + 2 - k - 5] == '>');
        assert(text.contains('>'));
    }
    assert(src.subrange(0, k) =~= plain);
}


/// In a quoted value a backslash lets the quote, or another backslash, stand for itself.
pub proof fn quotes_may_stand_in_values(a: Seq<char>, c: char, b: Seq<char>, rest: Seq<char>)
    requires
        is_quotable(a),
        is_quotable(b),
        c == '"' || c == '\\',
    ensures
        quoted(a + seq!['\\', c] + b + seq!['"'] + rest, 0, '"') == (
            a + seq![c] + b,
            a.len() as int + 2 + b.len() + 1,
        ),
{
    let s = a + seq!['\\', c] + b + seq!['"'] + rest;
    let n = a.len() as int;
    let e = n + 2 + b.len();
    assert forall|j: int| n + 2 <= j < e implies #[trigger] s[j] != '\\' && s[j] != '"' by {
        assert(s[j] == b[j - n - 2]);
        assert(b.contains(b[j - n - 2]));
    }
    assert(s[e] == '"');
    lemma_quoted_is(s, n + 2, e, '"');
    assert(s.subrange(n + 2, e) =~= b);
    assert(s[n] == '\\' && s[n + 1] == c);
    lemma_quoted_from(s, a, c, b, 0);
}

proof fn lemma_quoted_from(s: Seq<char>, a: Seq<char>, c: char, b: Seq<char>, i: int)
    requires
        0 <= i <= a.len(),
        is_quotable(a),
        c == '"' || c == '\\',
        a.len() + 2 <= s.len(),
        forall|j: int| 0 <= j < a.len() ==> #[trigger] s[j] == a[j],
        s[a.len() as int] == '\\',
        s[a.len() as int + 1] == c,
        quoted(s, a.len() as int + 2, '"') == (b, a.len() as int + 2 + b.len() + 1),
    ensures
        quoted(s, i, '"') == (a.skip(i) + seq![c] + b, a.len() as int + 2 + b.len() + 1),
    decreases a.len() - i,
{
    if i < a.len() {
        assert(s[i] == a[i]);
        assert(a.contains(a[i]));
        lemma_quoted_from(s, a, c, b, i + 1);
        assert(seq![a[i]] + (a.skip(i + 1) + seq![c] + b) =~= a.skip(i) + seq![c] + b);
    } else {
        assert(seq![c] + b =~= a.skip(i) + seq![c] + b);
    }
    if i == 0 {
        assert(a.skip(0) =~= a);
    }
}

} // verus!
