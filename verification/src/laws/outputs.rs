//! What scripts are run with, and what their output comes to.

use vstd::prelude::*;

use crate::configs::resolve::ResolvedView;
use crate::digits::decimal;
use crate::laws::wording::{
    is_tight, lemma_around, lemma_decimal_digits, lemma_lacking, lemma_tight, lemma_trim_back,
    lemma_trim_front, numbers_read_back, trimming_takes_space_away,
};
use crate::outside::lossy_text;
use crate::servers::http::{BodyView, RequestView};
use crate::servers::pages::{reason, HTML};
use crate::servers::scripts::{
    cgi_answer, cgi_fields, cgi_passed, cgi_status, client_parts, fixed_variables, found_from,
    has_type, header_variable, plan, status_field, ScriptPlanView, ScriptRouteView, ScriptView,
};
use crate::text::{
    is_space, last_position, lemma_split_joined, lower, replace, rsplit_once, same_letters, split,
    split_once, trim, trim_end, upper, upper_char, words, Class,
};

verus! {

// ---------------------------------------------------------------------------
// The status
// ---------------------------------------------------------------------------

/// A number has nothing to trim.
proof fn lemma_tight_decimal(n: int)
    requires
        0 <= n,
    ensures
        trim(decimal(n)) == decimal(n),
        !decimal(n).contains(' '),
{
    lemma_decimal_digits(n);
    let d = decimal(n);
    assert('0' <= d[0] <= '9');
    assert('0' <= d[d.len() - 1] <= '9');
    lemma_tight(d);
    if d.contains(' ') {
        let i = choose|i: int| 0 <= i < d.len() && d[i] == ' ';
        assert('0' <= d[i] <= '9');
    }
}

/// A `Status` field gives the code that it starts with; and the words after that are
/// its reason, or the usual ones where there are none.
pub proof fn status_fields_are_read(code: u16, words_after: Seq<char>)
    ensures
        status_field(decimal(code as int)) == Some((code, reason(code))),
        status_field(decimal(code as int) + seq![' '] + words_after) == Some(
            (
                code,
                if trim(words_after).len() > 0 {
                    trim(words_after)
                } else {
                    reason(code)
                },
            ),
        ),
{
    let d = decimal(code as int);
    lemma_tight_decimal(code as int);
    numbers_read_back(code as int);
    lemma_lacking(d, ' ');
    lemma_around(d, ' ', words_after);
}

/// The status of a response is that of the last `Status` field, whatever other fields
/// stand before and after it.
pub proof fn the_status_field_decides(
    before: Seq<(Seq<char>, Seq<char>)>,
    name: Seq<char>,
    code: u16,
    words_after: Seq<char>,
    after: Seq<(Seq<char>, Seq<char>)>,
)
    requires
        same_letters(name, "status"@),
        forall|i: int| 0 <= i < after.len() ==> !same_letters((#[trigger] after[i]).0, "status"@),
    ensures
        cgi_status(
            before.push((name, decimal(code as int) + seq![' '] + words_after)) + after,
        ) == (
            code,
            if trim(words_after).len() > 0 {
                trim(words_after)
            } else {
                reason(code)
            },
        ),
        cgi_status(before.push((name, decimal(code as int))) + after) == (code, reason(code)),
    decreases after.len(),
{
    status_fields_are_read(code, words_after);
    let f = before.push((name, decimal(code as int) + seq![' '] + words_after));
    let g = before.push((name, decimal(code as int)));
    if after.len() == 0 {
        assert(f + after =~= f);
        assert(g + after =~= g);
    } else {
        let rest = after.drop_last();
        assert((f + after).drop_last() =~= f + rest);
        assert((g + after).drop_last() =~= g + rest);
        assert((f + after).last() == after[after.len() - 1]);
        assert((g + after).last() == after[after.len() - 1]);
        the_status_field_decides(before, name, code, words_after, rest);
    }
}

/// Without a `Status` field the status is 200.
pub proof fn without_a_status_all_is_well(f: Seq<(Seq<char>, Seq<char>)>)
    requires
        forall|i: int| 0 <= i < f.len() ==> !same_letters((#[trigger] f[i]).0, "status"@),
    ensures
        cgi_status(f) == (200u16, "OK"@),
        cgi_passed(f) == f,
    decreases f.len(),
{
    if f.len() > 0 {
        assert(f.last() == f[f.len() - 1]);
        without_a_status_all_is_well(f.drop_last());
        assert(f.drop_last().push(f.last()) =~= f);
    } else {
        assert(f =~= Seq::empty());
    }
}

/// Every field but the status is passed on, in its place.
pub proof fn other_fields_are_passed_on(
    a: Seq<(Seq<char>, Seq<char>)>,
    status: (Seq<char>, Seq<char>),
    b: Seq<(Seq<char>, Seq<char>)>,
)
    requires
        same_letters(status.0, "status"@),
        forall|i: int| 0 <= i < a.len() ==> !same_letters((#[trigger] a[i]).0, "status"@),
        forall|i: int| 0 <= i < b.len() ==> !same_letters((#[trigger] b[i]).0, "status"@),
    ensures
        cgi_passed(a.push(status) + b) == a + b,
    decreases b.len(),
{
    let f = a.push(status);
    if b.len() == 0 {
        assert(f + b =~= f);
        assert(f.drop_last() =~= a);
        without_a_status_all_is_well(a);
        assert(a + b =~= a);
    } else {
        let rest = b.drop_last();
        assert((f + b).drop_last() =~= f + rest);
        assert((f + b).last() == b[b.len() - 1]);
        other_fields_are_passed_on(a, status, rest);
        assert((a + rest).push(b.last()) =~= a + b);
    }
}

// ---------------------------------------------------------------------------
// Lines and bytes
// ---------------------------------------------------------------------------

/// The line of a header field.
pub open spec fn field_line(f: (Seq<char>, Seq<char>)) -> Seq<char> {
    f.0 + seq![':'] + (seq![' '] + f.1)
}

/// The text of header fields, one to a line.
pub open spec fn head_text(f: Seq<(Seq<char>, Seq<char>)>) -> Seq<char>
    decreases f.len(),
{
    if f.len() == 0 {
        Seq::empty()
    } else if f.len() == 1 {
        field_line(f[0])
    } else {
        head_text(f.drop_last()) + seq!['\r'] + seq!['\n'] + field_line(f.last())
    }
}

/// Whether a header field can stand on a line as it is.
pub open spec fn is_field(f: (Seq<char>, Seq<char>)) -> bool {
    &&& f.0.len() > 0 && is_tight(f.0) && is_tight(f.1)
    &&& !f.0.contains(':')
    &&& !f.0.contains('\n') && !f.1.contains('\n')
    &&& !f.1.contains('\r')
}

proof fn lemma_field_line(f: (Seq<char>, Seq<char>))
    requires
        is_field(f),
    ensures
        !field_line(f).contains('\n'),
        field_line(f).len() > 0,
        trim_end(field_line(f), Class::One('\r')) == field_line(f),
        trim_end(field_line(f) + seq!['\r'], Class::One('\r')) == field_line(f),
        split_once(field_line(f), ':') == Some((f.0, seq![' '] + f.1)),
        trim(f.0) == f.0,
        trim(seq![' '] + f.1) == f.1,
{
    let l = field_line(f);
    lemma_around(f.0, ':', seq![' '] + f.1);
    lemma_tight(f.0);
    let none = Seq::<char>::empty();
    trimming_takes_space_away(seq![' '], f.1, none);
    assert(seq![' '] + f.1 + none =~= seq![' '] + f.1);
    assert forall|i: int| 0 <= i < l.len() implies #[trigger] l[i] != '\n' by {
        if i < f.0.len() {
            assert(l[i] == f.0[i]);
            assert(f.0.contains(f.0[i]));
        } else if i > f.0.len() + 1 {
            assert(l[i] == f.1[i - f.0.len() - 2]);
            assert(f.1.contains(f.1[i - f.0.len() - 2]));
        }
    }
    assert(l.last() != '\r') by {
        if f.1.len() > 0 {
            assert(l.last() == f.1.last());
            assert(f.1.contains(f.1[f.1.len() - 1]));
        } else {
            assert(l.last() == ' ');
        }
    }
    lemma_trim_back(l, seq!['\r'], Class::One('\r'));
}

/// Header fields that stand on lines of their own are read as they are, in their
/// order.
pub proof fn lines_of_fields_are_read(f: Seq<(Seq<char>, Seq<char>)>)
    requires
        f.len() > 0,
        forall|i: int| 0 <= i < f.len() ==> is_field(#[trigger] f[i]),
    ensures
        cgi_fields(split(head_text(f), '\n')) == Some(f),
{
    lemma_head_lines(f);
    let l = split(head_text(f), '\n');
    lemma_fields_but_last(f);
    let d = f.drop_last();
    assert(l.drop_last() =~= ended_lines(d));
    assert(is_field(f[f.len() - 1]));
    lemma_field_line(f.last());
    assert(d.push(f.last()) =~= f);
}

/// The lines of header fields, each with its carriage return.
pub open spec fn ended_lines(f: Seq<(Seq<char>, Seq<char>)>) -> Seq<Seq<char>> {
    f.map_values(|x: (Seq<char>, Seq<char>)| field_line(x) + seq!['\r'])
}

proof fn lemma_fields_but_last(f: Seq<(Seq<char>, Seq<char>)>)
    requires
        f.len() > 0,
        forall|i: int| 0 <= i < f.len() ==> is_field(#[trigger] f[i]),
    ensures
        cgi_fields(ended_lines(f.drop_last())) == Some(f.drop_last()),
    decreases f.len(),
{
    let d = f.drop_last();
    if d.len() > 0 {
        assert forall|i: int| 0 <= i < d.len() implies is_field(#[trigger] d[i]) by {
            assert(d[i] == f[i]);
        }
        lemma_fields_but_last(d);
        assert(ended_lines(d).drop_last() =~= ended_lines(d.drop_last()));
        assert(is_field(d[d.len() - 1]));
        lemma_field_line(d.last());
        assert(d.drop_last().push(d.last()) =~= d);
    } else {
        assert(d =~= Seq::empty());
        assert(ended_lines(d) =~= Seq::empty());
    }
}

proof fn lemma_head_lines(f: Seq<(Seq<char>, Seq<char>)>)
    requires
        f.len() > 0,
        forall|i: int| 0 <= i < f.len() ==> is_field(#[trigger] f[i]),
    ensures
        split(head_text(f), '\n') == ended_lines(f.drop_last()).push(field_line(f.last())),
    decreases f.len(),
{
    assert(is_field(f[f.len() - 1]));
    lemma_field_line(f.last());
    lemma_lacking(field_line(f.last()), '\n');
    let d = f.drop_last();
    if f.len() == 1 {
        assert(ended_lines(d) =~= Seq::empty());
        assert(ended_lines(d).push(field_line(f.last())) =~= seq![field_line(f.last())]);
    } else {
        assert forall|i: int| 0 <= i < d.len() implies is_field(#[trigger] d[i]) by {
            assert(d[i] == f[i]);
        }
        lemma_head_lines(d);
        lemma_last_gets_return(d);
        let a = head_text(d) + seq!['\r'];
        lemma_split_joined(a, '\n', field_line(f.last()));
        assert(split(a, '\n') + seq![field_line(f.last())] =~= split(a, '\n').push(
            field_line(f.last()),
        ));
    }
}

proof fn lemma_last_gets_return(f: Seq<(Seq<char>, Seq<char>)>)
    requires
        f.len() > 0,
        forall|i: int| 0 <= i < f.len() ==> is_field(#[trigger] f[i]),
        split(head_text(f), '\n') == ended_lines(f.drop_last()).push(field_line(f.last())),
    ensures
        split(head_text(f) + seq!['\r'], '\n') == ended_lines(f),
{
    let l = field_line(f.last());
    assert(is_field(f[f.len() - 1]));
    lemma_field_line(f.last());
    let e = l + seq!['\r'];
    assert(!e.contains('\n')) by {
        if e.contains('\n') {
            let i = choose|i: int| 0 <= i < e.len() && e[i] == '\n';
            assert(i < l.len());
            assert(l[i] == '\n');
        }
    }
    lemma_lacking(e, '\n');
    lemma_lacking(l, '\n');
    let d = f.drop_last();
    assert(ended_lines(f) =~= ended_lines(d).push(e));
    if f.len() == 1 {
        assert(ended_lines(d) =~= Seq::empty());
        assert(ended_lines(d).push(e) =~= seq![e]);
    } else {
        let a = head_text(d) + seq!['\r'];
        lemma_split_joined(a, '\n', l);
        lemma_split_joined(a, '\n', e);
        assert(head_text(f) + seq!['\r'] =~= a + seq!['\n'] + e);
        assert(split(a, '\n') + seq![l] =~= split(a, '\n').push(l));
        assert((split(a, '\n').push(l)).drop_last() =~= split(a, '\n'));
        assert((ended_lines(d).push(l)).drop_last() =~= ended_lines(d));
        assert(split(a, '\n') + seq![e] =~= ended_lines(d).push(e));
    }
}

/// Where a blank line first stands.
proof fn lemma_found_is(h: Seq<u8>, n: Seq<u8>, i: int, at: int)
    requires
        0 <= i <= at,
        at + n.len() <= h.len(),
        h.subrange(at, at + n.len()) == n,
        forall|j: int| i <= j < at ==> #[trigger] h.subrange(j, j + n.len()) != n,
    ensures
        found_from(h, n, i) == Some(at),
    decreases at - i,
{
    if i < at {
        assert(h.subrange(i, i + n.len()) != n);
        lemma_found_is(h, n, i + 1, at);
    }
}

/// Whether bytes hold an empty line that ends in a carriage return and a line feed.
pub open spec fn has_blank_line(raw: Seq<u8>, before: int) -> bool {
    exists|i: int|
        0 <= i < before && i + 4 <= raw.len() && raw[i] == 13 && raw[i + 1] == 10 && raw[i + 2] == 13
            && #[trigger] raw[i + 3] == 10
}

/// An output with header fields is a response with their status, with the other fields,
/// and with everything after the first blank line as its body, byte for byte.
pub proof fn outputs_become_responses(
    head: Seq<u8>,
    f: Seq<(Seq<char>, Seq<char>)>,
    body: Seq<u8>,
    head_only: bool,
)
    requires
        f.len() > 0,
        forall|i: int| 0 <= i < f.len() ==> is_field(#[trigger] f[i]),
        lossy_text(head) == head_text(f),
        !has_blank_line(head + seq![13u8, 10, 13, 10] + body, head.len() as int),
    ensures
        ({
            let r = cgi_answer(head + seq![13u8, 10, 13, 10] + body, head_only);
            &&& (r.status, r.reason) == cgi_status(f)
            &&& r.body == BodyView::Bytes(body)
            &&& r.head_only == head_only
            &&& has_type(f) ==> r.headers == cgi_passed(f)
            &&& !has_type(f) ==> r.headers == cgi_passed(f).push(("Content-Type"@, HTML@))
        }),
{
    let gap = seq![13u8, 10, 13, 10];
    let raw = head + gap + body;
    let n = head.len() as int;
    assert(raw.subrange(n, n + 4) =~= gap);
    assert forall|j: int| 0 <= j < n implies #[trigger] raw.subrange(j, j + 4) != gap by {
        if raw.subrange(j, j + 4) == gap {
            let w = raw.subrange(j, j + 4);
            assert(w[0] == raw[j] && w[1] == raw[j + 1] && w[2] == raw[j + 2] && w[3] == raw[j + 3]);
            assert(gap[0] == 13 && gap[1] == 10 && gap[2] == 13 && gap[3] == 10);
            assert(has_blank_line(raw, n));
        }
    }
    lemma_found_is(raw, gap, 0, n);
    assert(raw.take(n) =~= head);
    assert(raw.skip(n + 4) =~= body);
    lines_of_fields_are_read(f);
}

/// Every text is its trimmed form with white space before and behind it.
proof fn trim_parts(w: Seq<char>) -> (r: (Seq<char>, Seq<char>))
    ensures
        w == r.0 + trim(w) + r.1,
        forall|i: int| 0 <= i < r.0.len() ==> is_space(#[trigger] r.0[i]),
        forall|i: int| 0 <= i < r.1.len() ==> is_space(#[trigger] r.1[i]),
        is_tight(trim(w)),
    decreases w.len(),
{
    if w.len() > 0 && is_space(w[0]) {
        let t = w.skip(1);
        let p = trim_parts(t);
        let a = seq![w[0]] + p.0;
        assert(w =~= a + trim(w) + p.1) by {
            assert(w =~= seq![w[0]] + t);
        }
        assert forall|i: int| 0 <= i < a.len() implies is_space(#[trigger] a[i]) by {
            if i > 0 {
                assert(a[i] == p.0[i - 1]);
            }
        }
        (a, p.1)
    } else {
        let b = end_part(w);
        let none = Seq::<char>::empty();
        let t = trim_end(w, Class::Space);
        assert(trim(w) == t);
        assert(w =~= none + t + b);
        if t.len() > 0 {
            assert(t[0] == w[0]);
        }
        (none, b)
    }
}

proof fn end_part(w: Seq<char>) -> (b: Seq<char>)
    ensures
        w == trim_end(w, Class::Space) + b,
        forall|i: int| 0 <= i < b.len() ==> is_space(#[trigger] b[i]),
        trim_end(w, Class::Space).len() > 0 ==> !is_space(trim_end(w, Class::Space).last()),
    decreases w.len(),
{
    if w.len() > 0 && is_space(w.last()) {
        let c = end_part(w.drop_last());
        let b = c.push(w.last());
        assert(w =~= trim_end(w, Class::Space) + b) by {
            assert(w =~= w.drop_last().push(w.last()));
        }
        b
    } else {
        assert(w =~= w + Seq::<char>::empty());
        Seq::empty()
    }
}

proof fn lemma_status_value(code: u16, w: Seq<char>)
    ensures
        status_field(trim(decimal(code as int) + seq![' '] + w)) == Some(
            (
                code,
                if trim(w).len() > 0 {
                    trim(w)
                } else {
                    reason(code)
                },
            ),
        ),
{
    let d = decimal(code as int);
    let v = d + seq![' '] + w;
    let none = Seq::<char>::empty();
    lemma_decimal_digits(code as int);
    assert('0' <= d[0] <= '9');
    assert('0' <= d[d.len() - 1] <= '9');
    let p = trim_parts(w);
    let t = trim(w);
    if t.len() > 0 {
        let core = d + seq![' '] + (p.0 + t);
        assert(v =~= none + core + p.1);
        assert(core[0] == d[0] && core.last() == t.last());
        trimming_takes_space_away(none, core, p.1);
        status_fields_are_read(code, p.0 + t);
        trimming_takes_space_away(p.0, t, none);
        assert(p.0 + t + none =~= p.0 + t);
    } else {
        let space = seq![' '] + w;
        assert(w =~= p.0 + p.1);
        assert forall|i: int| 0 <= i < space.len() implies is_space(#[trigger] space[i]) by {
            if i > 0 {
                assert(space[i] == w[i - 1]);
                if i - 1 < p.0.len() {
                    assert(w[i - 1] == p.0[i - 1]);
                } else {
                    assert(w[i - 1] == p.1[i - 1 - p.0.len()]);
                }
            }
        }
        assert(v =~= none + d + space);
        trimming_takes_space_away(none, d, space);
        status_fields_are_read(code, none);
    }
}

proof fn lemma_one_field(v: Seq<char>)
    requires
        !v.contains('\n') && !v.contains('\r'),
    ensures
        cgi_fields(split(field_line(("Status"@, v)), '\n')) == Some(seq![("Status"@, trim(v))]),
{
    reveal_strlit("Status");
    let l = field_line(("Status"@, v));
    assert forall|i: int| 0 <= i < l.len() implies #[trigger] l[i] != '\n' && l[i] != '\r' by {
        if i >= 8 {
            assert(l[i] == v[i - 8]);
            assert(v.contains(v[i - 8]));
        }
    }
    lemma_lacking(l, '\n');
    assert(l.contains(l[l.len() - 1]));
    assert(trim_end(l, Class::One('\r')) == l);
    assert(!"Status"@.contains(':'));
    lemma_around("Status"@, ':', seq![' '] + v);
    lemma_tight("Status"@);
    lemma_trim_front(seq![' '], v);
    reveal_with_fuel(cgi_fields, 2);
    let one = seq![l];
    assert(one.drop_last() =~= Seq::empty());
    assert(Seq::<(Seq<char>, Seq<char>)>::empty().push(("Status"@, trim(v))) =~= seq![
        ("Status"@, trim(v)),
    ]);
}

/// A script that says `Status: 404 Not Found`, or any other code with its words, in
/// its only header field is answered with that code and these words, without the space
/// around them; and one that gives no words with the usual ones.
pub proof fn scripts_choose_their_status(
    head: Seq<u8>,
    code: u16,
    words_after: Seq<char>,
    body: Seq<u8>,
    head_only: bool,
)
    requires
        !words_after.contains('\n') && !words_after.contains('\r'),
        lossy_text(head) == field_line(
            ("Status"@, decimal(code as int) + seq![' '] + words_after),
        ) || lossy_text(head) == field_line(("Status"@, decimal(code as int))),
        !head.contains(10u8),
    ensures
        ({
            let r = cgi_answer(head + seq![13u8, 10, 13, 10] + body, head_only);
            &&& r.status == code
            &&& lossy_text(head) == field_line(
                ("Status"@, decimal(code as int) + seq![' '] + words_after),
            ) && trim(words_after).len() > 0 ==> r.reason == trim(words_after)
            &&& lossy_text(head) == field_line(
                ("Status"@, decimal(code as int) + seq![' '] + words_after),
            ) && trim(words_after).len() == 0 ==> r.reason == reason(code)
            &&& lossy_text(head) == field_line(("Status"@, decimal(code as int))) ==> r.reason
                == reason(code)
            &&& r.body == BodyView::Bytes(body)
            &&& r.headers == seq![("Content-Type"@, HTML@)]
            &&& r.head_only == head_only
        }),
{
    let d = decimal(code as int);
    let with_words = d + seq![' '] + words_after;
    let v = if lossy_text(head) == field_line(("Status"@, with_words)) {
        with_words
    } else {
        d
    };
    lemma_decimal_digits(code as int);
    assert forall|i: int| 0 <= i < v.len() implies #[trigger] v[i] != '\n' && v[i] != '\r' by {
        if i < d.len() {
            assert(v[i] == d[i]);
        } else if i > d.len() {
            assert(v[i] == words_after[i - d.len() - 1]);
            assert(words_after.contains(words_after[i - d.len() - 1]));
        }
    }
    lemma_one_field(v);
    let gap = seq![13u8, 10, 13, 10];
    let raw = head + gap + body;
    let n = head.len() as int;
    assert(raw.subrange(n, n + 4) =~= gap);
    assert forall|j: int| 0 <= j < n implies #[trigger] raw.subrange(j, j + 4) != gap by {
        if raw.subrange(j, j + 4) == gap {
            let w = raw.subrange(j, j + 4);
            assert(w[1] == raw[j + 1] && gap[1] == 10);
            if j + 1 < n {
                assert(head[j + 1] == 10);
                assert(head.contains(10u8));
            } else {
                assert(raw[j + 1] == 13);
            }
        }
    }
    lemma_found_is(raw, gap, 0, n);
    assert(raw.take(n) =~= head);
    assert(raw.skip(n + 4) =~= body);
    let f = seq![("Status"@, trim(v))];
    lemma_status_value(code, words_after);
    assert(trim(d) == d) by {
        assert('0' <= d[0] <= '9');
        assert('0' <= d[d.len() - 1] <= '9');
        lemma_tight(d);
    }
    status_fields_are_read(code, words_after);
    reveal_strlit("Status");
    reveal_strlit("status");
    reveal_strlit("content-type");
    assert(lower("Status"@) =~= "status"@);
    assert(lower("status"@) =~= "status"@);
    reveal_with_fuel(cgi_status, 2);
    reveal_with_fuel(cgi_passed, 2);
    assert(f.drop_last() =~= Seq::empty());
    assert(!has_type(f)) by {
        assert(lower("content-type"@).len() == 12);
        assert(lower(f[0].0).len() == 6);
    }
    assert(Seq::<(Seq<char>, Seq<char>)>::empty().push(("Content-Type"@, HTML@)) =~= seq![
        ("Content-Type"@, HTML@),
    ]);
    // Where both forms are one text, they are read alike.
    if lossy_text(head) == field_line(("Status"@, d)) && v != d {
        let x = field_line(("Status"@, d));
        assert(x.len() == 8 + d.len());
        assert(field_line(("Status"@, v)).len() == 8 + v.len());
    }
}

/// An output without a blank line is all body.
pub proof fn outputs_without_fields_are_bodies(raw: Seq<u8>, head_only: bool)
    requires
        forall|i: int| 0 <= i < raw.len() - 1 ==> !(#[trigger] raw[i] == 10 && raw[i + 1] == 10),
        !has_blank_line(raw, raw.len() as int),
    ensures
        ({
            let r = cgi_answer(raw, head_only);
            &&& r.status == 200
            &&& r.reason == "OK"@
            &&& r.body == BodyView::Bytes(raw)
            &&& r.headers == seq![("Content-Type"@, HTML@)]
        }),
{
    let wide = seq![13u8, 10, 13, 10];
    let narrow = seq![10u8, 10];
    assert forall|j: int| 0 <= j && j + 4 <= raw.len() implies #[trigger] raw.subrange(j, j + 4)
        != wide by {
        if raw.subrange(j, j + 4) == wide {
            let w = raw.subrange(j, j + 4);
            assert(w[0] == raw[j] && w[1] == raw[j + 1] && w[2] == raw[j + 2] && w[3] == raw[j + 3]);
            assert(wide[0] == 13 && wide[1] == 10 && wide[2] == 13 && wide[3] == 10);
            assert(has_blank_line(raw, raw.len() as int));
        }
    }
    assert forall|j: int| 0 <= j && j + 2 <= raw.len() implies #[trigger] raw.subrange(j, j + 2)
        != narrow by {
        if raw.subrange(j, j + 2) == narrow {
            let w = raw.subrange(j, j + 2);
            assert(w[0] == raw[j] && w[1] == raw[j + 1]);
            assert(narrow[0] == 10 && narrow[1] == 10);
        }
    }
    lemma_found_nowhere(raw, wide, 0);
    lemma_found_nowhere(raw, narrow, 0);
    assert(raw.skip(0) =~= raw);
    let none = Seq::<(Seq<char>, Seq<char>)>::empty();
    assert(!has_type(none));
    assert(none.push(("Content-Type"@, HTML@)) =~= seq![("Content-Type"@, HTML@)]);
}

proof fn lemma_found_nowhere(h: Seq<u8>, n: Seq<u8>, i: int)
    requires
        0 <= i,
        forall|j: int| i <= j && j + n.len() <= h.len() ==> #[trigger] h.subrange(j, j + n.len())
            != n,
    ensures
        found_from(h, n, i) is None,
    decreases h.len() + 1 - i,
{
    if i + n.len() <= h.len() {
        assert(h.subrange(i, i + n.len()) != n);
        lemma_found_nowhere(h, n, i + 1);
    }
}

// ---------------------------------------------------------------------------
// Running
// ---------------------------------------------------------------------------

/// A script that runs by itself has to be executable, and is run without arguments.
/// One with an interpreter is run by it, after the arguments of the interpreter; and
/// where that is not installed, it is missing.
pub proof fn scripts_are_run_by_their_route(
    path: Seq<char>,
    command: Seq<char>,
    executable: bool,
    interpreter: Option<Seq<char>>,
)
    ensures
        executable ==> plan(path, ScriptRouteView::ExecDirect, executable, interpreter)
            == ScriptPlanView::Run(path, Seq::empty()),
        !executable ==> plan(path, ScriptRouteView::ExecDirect, executable, interpreter) is Failure,
        words(command).len() == 0 ==> plan(
            path,
            ScriptRouteView::Interpreter(command),
            executable,
            interpreter,
        ) is Failure,
        words(command).len() > 0 && interpreter is None ==> plan(
            path,
            ScriptRouteView::Interpreter(command),
            executable,
            interpreter,
        ) is Missing,
        words(command).len() > 0 && interpreter is Some ==> (plan(
            path,
            ScriptRouteView::Interpreter(command),
            executable,
            interpreter,
        ) matches ScriptPlanView::Run(program, args) && program == interpreter->0 && args.len()
            == words(command).len() && args.last() == path && forall|i: int|
            0 <= i < args.len() - 1 ==> #[trigger] args[i] == words(command)[i + 1]),
{
}

/// A script knows a header field by its name in capitals, with underscores for
/// hyphens, after `HTTP_`.
pub proof fn header_variables_are_in_capitals(name: Seq<char>, i: int)
    requires
        0 <= i < name.len(),
    ensures
        header_variable(name).len() == 5 + name.len(),
        header_variable(name).take(5) == "HTTP_"@,
        name[i] == '-' ==> header_variable(name)[5 + i] == '_',
        'a' <= name[i] <= 'z' ==> header_variable(name)[5 + i] as int == name[i] as int - 32,
        name[i] != '-' && !('a' <= name[i] <= 'z') ==> header_variable(name)[5 + i] == name[i],
{
    reveal_strlit("HTTP_");
    reveal_strlit("_");
    let u = upper(name);
    lemma_replace_one(u, '-', '_', i);
    assert("_"@ =~= seq!['_']);
    assert(header_variable(name).take(5) =~= "HTTP_"@);
    assert(u[i] == upper_char(name[i]));
}

/// Replacing characters by characters leaves each in its place.
pub proof fn lemma_replace_one(s: Seq<char>, c: char, by: char, i: int)
    requires
        0 <= i < s.len(),
    ensures
        replace(s, c, seq![by]).len() == s.len(),
        replace(s, c, seq![by])[i] == (if s[i] == c {
            by
        } else {
            s[i]
        }),
    decreases s.len(),
{
    let d = s.drop_last();
    reveal_with_fuel(replace, 2);
    if s.len() == 1 {
        assert(d =~= Seq::<char>::empty());
    } else if i < d.len() {
        lemma_replace_one(d, c, by, i);
    } else {
        lemma_replace_one(d, c, by, 0);
    }
}

/// A client is told to a script by its address and its port, which the last colon
/// parts.
pub proof fn clients_are_told_apart(address: Seq<char>, port: Seq<char>)
    requires
        !port.contains(':'),
    ensures
        client_parts(address + seq![':'] + port) == (address, port),
{
    lemma_last_part(address, ':', port);
}

/// What stands before and after the last of a character.
pub proof fn lemma_last_part(a: Seq<char>, c: char, b: Seq<char>)
    requires
        !b.contains(c),
    ensures
        rsplit_once(a + seq![c] + b, c) == Some((a, b)),
{
    let s = a + seq![c] + b;
    lemma_last_position_is(s, c, a.len() as int);
    assert(s.take(a.len() as int) =~= a);
    assert(s.skip(a.len() as int + 1) =~= b);
}

proof fn lemma_last_position_is(s: Seq<char>, c: char, i: int)
    requires
        0 <= i < s.len(),
        s[i] == c,
        !s.skip(i + 1).contains(c),
    ensures
        last_position(s, c) == i,
    decreases s.len(),
{
    if i < s.len() - 1 {
        let d = s.drop_last();
        assert(s.skip(i + 1)[s.len() - i - 2] == s.last());
        assert(s.skip(i + 1).contains(s.last()));
        assert(!d.skip(i + 1).contains(c)) by {
            let e = d.skip(i + 1);
            if e.contains(c) {
                let j = choose|j: int| 0 <= j < e.len() && e[j] == c;
                assert(s.skip(i + 1)[j] == c);
            }
        }
        lemma_last_position_is(d, c, i);
    }
}

/// A script is told of the request what the interface to it promises.
pub proof fn scripts_are_told_of_the_request(
    base: Seq<char>,
    s: ScriptView,
    q: RequestView,
    opts: ResolvedView,
    body_len: int,
    path: Seq<char>,
    query: Seq<char>,
    address: Seq<char>,
    port: Seq<char>,
)
    requires
        !path.contains('?'),
        !port.contains(':'),
        q.path == path + seq!['?'] + query,
    ensures
        ({
            let v = fixed_variables(base, s, q, opts, body_len, address + seq![':'] + port);
            &&& v.contains(("REQUEST_METHOD"@, q.method))
            &&& v.contains(("QUERY_STRING"@, query))
            &&& v.contains(("CONTENT_LENGTH"@, decimal(body_len)))
            &&& q.headers.contains_key("content-type"@) ==> v.contains(
                ("CONTENT_TYPE"@, q.headers["content-type"@]),
            )
            &&& v.contains(("SCRIPT_FILENAME"@, s.path))
            &&& v.contains(("PATH_INFO"@, s.path_info))
            &&& v.contains(("PATH_TRANSLATED"@, s.path_translated))
            &&& v.contains(("SERVER_PORT"@, decimal(opts.port as int)))
            &&& v.contains(("SERVER_PROTOCOL"@, q.version))
            &&& v.contains(("GATEWAY_INTERFACE"@, "CGI/1.1"@))
            &&& v.contains(("REMOTE_ADDR"@, address))
            &&& v.contains(("REMOTE_PORT"@, port))
            &&& v.contains(("DOCUMENT_ROOT"@, base))
            &&& opts.fqdn is Some ==> v.contains(("SERVER_NAME"@, opts.fqdn->0))
            &&& opts.fqdn is None ==> v.contains(("SERVER_NAME"@, "localhost"@))
            &&& opts.tls_enabled ==> v.contains(("HTTPS"@, "on"@))
            &&& !opts.tls_enabled ==> v.len() == 16
        }),
{
    lemma_around(path, '?', query);
    clients_are_told_apart(address, port);
    let v = fixed_variables(base, s, q, opts, body_len, address + seq![':'] + port);
    assert(v[0] == ("REQUEST_METHOD"@, q.method));
    assert(v[1] == ("QUERY_STRING"@, query));
    assert(v[2].0 == "CONTENT_TYPE"@);
    assert(v[3] == ("CONTENT_LENGTH"@, decimal(body_len)));
    assert(v[5] == ("SCRIPT_FILENAME"@, s.path));
    assert(v[6] == ("PATH_INFO"@, s.path_info));
    assert(v[7] == ("PATH_TRANSLATED"@, s.path_translated));
    assert(v[8].0 == "SERVER_NAME"@);
    assert(v[9] == ("SERVER_PORT"@, decimal(opts.port as int)));
    assert(v[10] == ("SERVER_PROTOCOL"@, q.version));
    assert(v[12] == ("GATEWAY_INTERFACE"@, "CGI/1.1"@));
    assert(v[13] == ("REMOTE_ADDR"@, address));
    assert(v[14] == ("REMOTE_PORT"@, port));
    assert(v[15] == ("DOCUMENT_ROOT"@, base));
    if opts.tls_enabled {
        assert(v[16] == ("HTTPS"@, "on"@));
    }
}

/// The words after a status are those of the protocol.
pub proof fn phrases_are_those_of_the_protocol(status: u16)
    ensures
        reason(status) == (match status {
            400 => "Bad Request"@,
            403 => "Forbidden"@,
            404 => "Not Found"@,
            405 => "Method Not Allowed"@,
            416 => "Range Not Satisfiable"@,
            500 => "Internal Server Error"@,
            503 => "Service Unavailable"@,
            _ => "Error"@,
        }),
{
}

} // verus!
