//! What the conditions of server-side directives come to.

use vstd::prelude::*;

use crate::outside::regex_groups;
use crate::servers::ssi_expr::{
    and_at, and_rest, comparison, enclosed, operand, or_at, or_rest, relation, truth, unary,
    OperandView, Relation,
};
use crate::servers::ssi_text::past_space;
use crate::text::{is_space, less, stands_at};

verus! {

// ---------------------------------------------------------------------------
// Several sides
// ---------------------------------------------------------------------------

/// Whether sides with these values follow one another from a place on, each up to
/// its end, with a sign between them and none after the last.
pub open spec fn sides(
    s: Seq<char>,
    i: int,
    sign: Seq<char>,
    side: spec_fn(int) -> Option<(bool, int)>,
    values: Seq<bool>,
    ends: Seq<int>,
) -> bool
    decreases values.len(),
{
    &&& values.len() == ends.len()
    &&& values.len() > 0
    &&& 0 <= i <= ends[0] <= s.len()
    &&& side(i) == Some((values[0], ends[0]))
    &&& ends[0] <= past_space(s, ends[0]) <= s.len()
    &&& if values.len() == 1 {
        !stands_at(s, sign, past_space(s, ends[0]))
    } else {
        &&& stands_at(s, sign, past_space(s, ends[0]))
        &&& past_space(s, ends[0]) + 2 <= ends[1]
        &&& sides(
            s,
            past_space(s, ends[0]) + 2,
            sign,
            side,
            values.skip(1),
            ends.skip(1),
        )
    }
}

proof fn lemma_and_rest(s: Seq<char>, i: int, values: Seq<bool>, ends: Seq<int>, before: bool)
    requires
        sides(s, i, "&&"@, |j: int| unary(s, j), values, ends),
    ensures
        and_rest(s, values[0] && before, ends[0]) == Some(
            (before && !values.contains(false), past_space(s, ends.last())),
        ),
    decreases values.len(),
{
    reveal_strlit("&&");
    let v = values[0] && before;
    if values.len() == 1 {
        if values.contains(false) {
            assert(values[0] == false);
        }
        assert(values[0] == false ==> values.contains(false));
        assert(ends.last() == ends[0]);
    } else {
        let rest = values.skip(1);
        let more = ends.skip(1);
        let k = past_space(s, ends[0]);
        reveal_with_fuel(sides, 2);
        lemma_and_rest(s, k + 2, rest, more, v);
        assert(rest[0] == values[1] && more[0] == ends[1]);
        assert(unary(s, k + 2) == Some((rest[0], more[0])));
        assert(and_rest(s, v, ends[0]) == and_rest(s, rest[0] && v, more[0]));
        assert(more.last() == ends.last());
        assert(values =~= seq![values[0]] + rest);
        if rest.contains(false) {
            let j = choose|j: int| 0 <= j < rest.len() && rest[j] == false;
            assert(values[j + 1] == false);
        }
        if values.contains(false) && values[0] {
            let j = choose|j: int| 0 <= j < values.len() && values[j] == false;
            assert(rest[j - 1] == false);
        }
        assert(values[0] == false ==> values.contains(false));
    }
}

/// Sides with `&&` between them are true together exactly where each of them is true.
pub proof fn all_sides_of_and_count(s: Seq<char>, i: int, values: Seq<bool>, ends: Seq<int>)
    requires
        sides(s, i, "&&"@, |j: int| unary(s, j), values, ends),
    ensures
        and_at(s, i) == Some(
            (
                forall|j: int| 0 <= j < values.len() ==> #[trigger] values[j],
                past_space(s, ends.last()),
            ),
        ),
{
    lemma_and_rest(s, i, values, ends, true);
    if forall|j: int| 0 <= j < values.len() ==> #[trigger] values[j] {
        assert(!values.contains(false));
    } else {
        let j = choose|j: int| 0 <= j < values.len() && !(#[trigger] values[j]);
        assert(values[j] == false);
        assert(values.contains(false));
    }
}

proof fn lemma_or_rest(s: Seq<char>, i: int, values: Seq<bool>, ends: Seq<int>, before: bool)
    requires
        sides(s, i, "||"@, |j: int| and_at(s, j), values, ends),
    ensures
        or_rest(s, values[0] || before, ends[0]) == Some(
            (before || values.contains(true), past_space(s, ends.last())),
        ),
    decreases values.len(),
{
    reveal_strlit("||");
    let v = values[0] || before;
    if values.len() == 1 {
        if values.contains(true) {
            assert(values[0] == true);
        }
        assert(values[0] == true ==> values.contains(true));
        assert(ends.last() == ends[0]);
    } else {
        let rest = values.skip(1);
        let more = ends.skip(1);
        let k = past_space(s, ends[0]);
        reveal_with_fuel(sides, 2);
        lemma_or_rest(s, k + 2, rest, more, v);
        assert(rest[0] == values[1] && more[0] == ends[1]);
        assert(and_at(s, k + 2) == Some((rest[0], more[0])));
        assert(or_rest(s, v, ends[0]) == or_rest(s, rest[0] || v, more[0]));
        assert(more.last() == ends.last());
        assert(values =~= seq![values[0]] + rest);
        if rest.contains(true) {
            let j = choose|j: int| 0 <= j < rest.len() && rest[j] == true;
            assert(values[j + 1] == true);
        }
        if values.contains(true) && !values[0] {
            let j = choose|j: int| 0 <= j < values.len() && values[j] == true;
            assert(rest[j - 1] == true);
        }
        assert(values[0] == true ==> values.contains(true));
    }
}

/// Sides with `||` between them are true together exactly where one of them is true.
pub proof fn one_side_of_or_is_enough(s: Seq<char>, i: int, values: Seq<bool>, ends: Seq<int>)
    requires
        sides(s, i, "||"@, |j: int| and_at(s, j), values, ends),
    ensures
        or_at(s, i) == Some(
            (
                exists|j: int| 0 <= j < values.len() && #[trigger] values[j],
                past_space(s, ends.last()),
            ),
        ),
{
    lemma_or_rest(s, i, values, ends, false);
    if exists|j: int| 0 <= j < values.len() && #[trigger] values[j] {
        let j = choose|j: int| 0 <= j < values.len() && #[trigger] values[j];
        assert(values[j] == true);
        assert(values.contains(true));
    } else if values.contains(true) {
        let j = choose|j: int| 0 <= j < values.len() && values[j] == true;
        assert(values[j]);
    }
}

/// `!` turns what follows it around, and parentheses leave it as it is.
pub proof fn signs_before_an_expression(s: Seq<char>, i: int, k: int)
    requires
        0 <= i <= k < s.len(),
        past_space(s, i) == k,
    ensures
        s[k] == '!' ==> (match unary(s, k + 1) {
            Some(r) => unary(s, i) == Some((!r.0, r.1)),
            None => unary(s, i) is None,
        }),
        s[k] == '(' ==> (or_at(s, k + 1) matches Some(r) ==> 0 <= past_space(s, r.1) < s.len() && s[
        past_space(s, r.1)] == ')' ==> unary(s, i) == Some((r.0, past_space(s, r.1) + 1))),
        s[k] == '(' && or_at(s, k + 1) is None ==> unary(s, i) is None,
{
    reveal_strlit("!");
    reveal_strlit("(");
    reveal_strlit(")");
    assert(s.subrange(k, k + 1) =~= seq![s[k]]);
    assert("!"@ =~= seq!['!']);
    assert("("@ =~= seq!['(']);
    assert(")"@ =~= seq![')']);
    assert(seq![s[k]][0] == s[k]);
    assert(s[k] == '(' ==> !stands_at(s, "!"@, k) && stands_at(s, "("@, k)) by {
        assert(seq!['!'][0] == '!');
    }
    if s[k] == '(' {
        if let Some(r) = or_at(s, k + 1) {
            let e = past_space(s, r.1);
            if 0 <= e < s.len() {
                assert(s.subrange(e, e + 1) =~= seq![s[e]]);
            }
        }
    }
}

// ---------------------------------------------------------------------------
// Texts in quotes
// ---------------------------------------------------------------------------

/// A text in quotes.
pub open spec fn quote(x: Seq<char>) -> Seq<char> {
    seq!['\''] + x + seq!['\'']
}

/// Whether a text can stand in quotes as it is.
pub open spec fn is_bare(x: Seq<char>) -> bool {
    !x.contains('\'') && !x.contains('\\')
}

proof fn lemma_space_ends(s: Seq<char>, i: int, n: int)
    requires
        0 <= i <= n <= s.len(),
        forall|j: int| i <= j < n ==> is_space(#[trigger] s[j]),
        n < s.len() ==> !is_space(s[n]),
    ensures
        past_space(s, i) == n,
    decreases n - i,
{
    if i < n {
        lemma_space_ends(s, i + 1, n);
    }
}

proof fn lemma_enclosed_is(s: Seq<char>, i: int, x: Seq<char>, close: char, keep: bool)
    requires
        0 <= i,
        i + x.len() < s.len(),
        forall|j: int| 0 <= j < x.len() ==> s[i + j] == #[trigger] x[j],
        s[i + x.len()] == close,
        close != '\\',
        !x.contains(close),
        !x.contains('\\'),
    ensures
        enclosed(s, i, close, keep) == Some((x, i + x.len() + 1)),
    decreases x.len(),
{
    if x.len() == 0 {
        assert(x =~= Seq::<char>::empty());
    } else {
        let y = x.skip(1);
        assert(s[i + 0] == x[0]);
        assert(x.contains(x[0]));
        assert forall|j: int| 0 <= j < y.len() implies s[i + 1 + j] == #[trigger] y[j] by {
            assert(y[j] == x[j + 1]);
            assert(s[i + (j + 1)] == x[j + 1]);
        }
        assert forall|c: char| y.contains(c) implies x.contains(c) by {
            let j = choose|j: int| 0 <= j < y.len() && y[j] == c;
            assert(x[j + 1] == c);
        }
        lemma_enclosed_is(s, i + 1, y, close, keep);
        assert(seq![x[0]] + y =~= x);
    }
}

/// Whether a text stands in another one from a place on.
pub open spec fn lies_at(s: Seq<char>, p: Seq<char>, k: int) -> bool {
    &&& 0 <= k
    &&& k + p.len() <= s.len()
    &&& forall|j: int| 0 <= j < p.len() ==> s[k + j] == #[trigger] p[j]
}

proof fn lemma_quoted_operand(s: Seq<char>, i: int, k: int, x: Seq<char>)
    requires
        0 <= i <= k,
        past_space(s, i) == k,
        lies_at(s, quote(x), k),
        is_bare(x),
    ensures
        operand(s, i) == Some((OperandView { text: x, regex: false }, k + x.len() + 2)),
{
    let q = quote(x);
    assert(s[k + 0] == q[0]);
    assert forall|j: int| 0 <= j < x.len() implies s[k + 1 + j] == #[trigger] x[j] by {
        assert(s[k + (j + 1)] == q[j + 1]);
    }
    assert(s[k + (x.len() + 1)] == q[x.len() as int + 1]);
    lemma_enclosed_is(s, k + 1, x, '\'', false);
}

proof fn lemma_no_relation(s: Seq<char>, f: int)
    requires
        0 <= f <= s.len(),
        f < s.len() ==> s[f] != '=' && s[f] != '!' && s[f] != '<' && s[f] != '>',
    ensures
        relation(s, f) is None,
{
    reveal_strlit("==");
    reveal_strlit("!=");
    reveal_strlit("<=");
    reveal_strlit(">=");
    reveal_strlit("=");
    reveal_strlit("<");
    reveal_strlit(">");
    if f < s.len() {
        assert(s.subrange(f, f + 1)[0] == s[f]);
        if f + 1 < s.len() {
            assert(s.subrange(f, f + 2)[0] == s[f]);
        }
    }
}

proof fn lemma_no_sign(s: Seq<char>, k: int)
    requires
        0 <= k < s.len(),
        s[k] != '!' && s[k] != '(',
    ensures
        !stands_at(s, "!"@, k),
        !stands_at(s, "("@, k),
{
    reveal_strlit("!");
    reveal_strlit("(");
    assert(s.subrange(k, k + 1)[0] == s[k]);
}

/// A text in quotes alone is true where it is not empty.
proof fn lemma_quoted_side(s: Seq<char>, i: int, k: int, x: Seq<char>, f: int)
    requires
        0 <= i <= k,
        past_space(s, i) == k,
        lies_at(s, quote(x), k),
        is_bare(x),
        past_space(s, k + x.len() + 2) == f,
        k + x.len() + 2 <= f <= s.len(),
        f < s.len() ==> s[f] != '=' && s[f] != '!' && s[f] != '<' && s[f] != '>',
    ensures
        unary(s, i) == Some((x.len() > 0, f)),
{
    lemma_quoted_operand(s, i, k, x);
    lemma_no_relation(s, f);
    assert(s[k + 0] == quote(x)[0]);
    lemma_no_sign(s, k);
}

proof fn lemma_two_apart(s: Seq<char>, sign: Seq<char>, k: int)
    requires
        sign.len() == 2,
        0 <= k <= s.len(),
        k + 1 < s.len() ==> s[k] != sign[0] || s[k + 1] != sign[1],
    ensures
        !stands_at(s, sign, k),
{
    if stands_at(s, sign, k) {
        assert(s.subrange(k, k + 2)[0] == s[k]);
        assert(s.subrange(k, k + 2)[1] == s[k + 1]);
    }
}

proof fn lemma_two_there(s: Seq<char>, sign: Seq<char>, k: int)
    requires
        sign.len() == 2,
        0 <= k,
        k + 1 < s.len(),
        s[k] == sign[0],
        s[k + 1] == sign[1],
    ensures
        stands_at(s, sign, k),
{
    assert(s.subrange(k, k + 2) =~= sign);
}

/// What two texts in quotes come to with a sign between them, up to where the second
/// one is read.
proof fn lemma_two_sides(x: Seq<char>, sign: Seq<char>, y: Seq<char>)
    requires
        is_bare(x),
        is_bare(y),
        sign == "&&"@ || sign == "||"@,
    ensures
        ({
            let s = quote(x) + seq![' '] + sign + seq![' '] + quote(y);
            let k = x.len() as int + 3;
            &&& unary(s, 0) == Some((x.len() > 0, k))
            &&& unary(s, k + 2) == Some((y.len() > 0, s.len() as int))
            &&& past_space(s, k) == k
            &&& past_space(s, s.len() as int) == s.len()
            &&& stands_at(s, sign, k)
            &&& s[k] == sign[0]
            &&& s.len() == k + 3 + y.len() + 2
        }),
{
    reveal_strlit("&&");
    reveal_strlit("||");
    let s = quote(x) + seq![' '] + sign + seq![' '] + quote(y);
    let k = x.len() as int + 3;
    let q = quote(x);
    let p = quote(y);
    assert forall|j: int| 0 <= j < q.len() implies s[0 + j] == #[trigger] q[j] by {}
    assert forall|j: int| 0 <= j < p.len() implies s[k + 3 + j] == #[trigger] p[j] by {}
    assert(s[0] == q[0]);
    lemma_space_ends(s, 0, 0);
    assert(s[k - 1] == ' ' && s[k] == sign[0] && s[k + 1] == sign[1]);
    assert(s[k + 2] == ' ' && s[k + 3] == p[0]);
    lemma_space_ends(s, x.len() as int + 2, k);
    lemma_space_ends(s, k, k);
    lemma_quoted_side(s, 0, 0, x, k);
    lemma_space_ends(s, k + 2, k + 3);
    lemma_space_ends(s, s.len() as int, s.len() as int);
    lemma_quoted_side(s, k + 2, k + 3, y, s.len() as int);
    lemma_two_there(s, sign, k);
}

/// `&&` of two texts in quotes is true exactly where both have something in them, so
/// that it implies either.
pub proof fn both_texts_of_and_count(x: Seq<char>, y: Seq<char>)
    requires
        is_bare(x),
        is_bare(y),
    ensures
        truth(quote(x) + seq![' '] + "&&"@ + seq![' '] + quote(y)) == Some(
            x.len() > 0 && y.len() > 0,
        ),
{
    reveal_strlit("&&");
    reveal_strlit("||");
    let s = quote(x) + seq![' '] + "&&"@ + seq![' '] + quote(y);
    let n = s.len() as int;
    let k = x.len() as int + 3;
    lemma_two_sides(x, "&&"@, y);
    let values = seq![x.len() > 0, y.len() > 0];
    let ends = seq![k, n];
    lemma_two_apart(s, "&&"@, n);
    lemma_two_apart(s, "||"@, n);
    let side = |j: int| unary(s, j);
    assert(values.skip(1) =~= seq![y.len() > 0]);
    assert(ends.skip(1) =~= seq![n]);
    assert(sides(s, k + 2, "&&"@, side, values.skip(1), ends.skip(1)));
    assert(sides(s, 0, "&&"@, side, values, ends));
    all_sides_of_and_count(s, 0, values, ends);
    assert(values[0] && values[1] <==> (forall|j: int|
        0 <= j < values.len() ==> #[trigger] values[j]));
    assert(and_at(s, 0) == Some((x.len() > 0 && y.len() > 0, n)));
    assert(or_rest(s, x.len() > 0 && y.len() > 0, n) == Some((x.len() > 0 && y.len() > 0, n)));
}

/// `||` of two texts in quotes is true exactly where one has something in it.
pub proof fn one_text_of_or_is_enough(x: Seq<char>, y: Seq<char>)
    requires
        is_bare(x),
        is_bare(y),
    ensures
        truth(quote(x) + seq![' '] + "||"@ + seq![' '] + quote(y)) == Some(
            x.len() > 0 || y.len() > 0,
        ),
{
    reveal_strlit("&&");
    reveal_strlit("||");
    let s = quote(x) + seq![' '] + "||"@ + seq![' '] + quote(y);
    let n = s.len() as int;
    let k = x.len() as int + 3;
    lemma_two_sides(x, "||"@, y);
    lemma_two_apart(s, "&&"@, k);
    lemma_two_apart(s, "&&"@, n);
    lemma_two_apart(s, "||"@, n);
    assert(and_at(s, 0) == Some((x.len() > 0, k)));
    assert(and_at(s, k + 2) == Some((y.len() > 0, n)));
    let values = seq![x.len() > 0, y.len() > 0];
    let ends = seq![k, n];
    let side = |j: int| and_at(s, j);
    assert(values.skip(1) =~= seq![y.len() > 0]);
    assert(ends.skip(1) =~= seq![n]);
    assert(sides(s, k + 2, "||"@, side, values.skip(1), ends.skip(1)));
    assert(sides(s, 0, "||"@, side, values, ends));
    one_side_of_or_is_enough(s, 0, values, ends);
    assert(values[0] || values[1] <==> (exists|j: int|
        0 <= j < values.len() && #[trigger] values[j]));
}

proof fn lemma_alone(s: Seq<char>, v: bool)
    requires
        unary(s, 0) == Some((v, s.len() as int)),
    ensures
        truth(s) == Some(v),
{
    reveal_strlit("&&");
    reveal_strlit("||");
    let n = s.len() as int;
    lemma_space_ends(s, n, n);
    lemma_two_apart(s, "&&"@, n);
    lemma_two_apart(s, "||"@, n);
    assert(and_at(s, 0) == Some((v, n)));
}

/// A text in quotes is true where it has something in it, and `!` turns that around.
pub proof fn texts_are_true_where_they_hold_something(x: Seq<char>)
    requires
        is_bare(x),
    ensures
        truth(quote(x)) == Some(x.len() > 0),
        truth(seq!['!'] + quote(x)) == Some(x.len() == 0),
{
    let s = quote(x);
    let n = s.len() as int;
    lemma_space_ends(s, 0, 0);
    lemma_space_ends(s, n, n);
    assert(lies_at(s, s, 0));
    lemma_quoted_side(s, 0, 0, x, n);
    lemma_alone(s, x.len() > 0);
    let t = seq!['!'] + s;
    assert forall|j: int| 0 <= j < s.len() implies t[1 + j] == #[trigger] s[j] by {}
    assert(t[1] == s[0]);
    lemma_space_ends(t, 0, 0);
    lemma_space_ends(t, 1, 1);
    lemma_space_ends(t, n + 1, n + 1);
    lemma_quoted_side(t, 1, 1, x, n + 1);
    signs_before_an_expression(t, 0, 0);
    lemma_alone(t, x.len() == 0);
}

// ---------------------------------------------------------------------------
// Comparisons
// ---------------------------------------------------------------------------

/// What a comparison of two texts with a sign says, by the order of the texts.
pub open spec fn says(x: Seq<char>, sign: Seq<char>, y: Seq<char>) -> bool {
    if sign == "="@ || sign == "=="@ {
        x == y
    } else if sign == "!="@ {
        x != y
    } else if sign == "<"@ {
        less(x, y)
    } else if sign == "<="@ {
        x == y || less(x, y)
    } else if sign == ">"@ {
        less(y, x)
    } else {
        x == y || less(y, x)
    }
}

/// Whether a text is a sign of a comparison.
pub open spec fn is_sign(sign: Seq<char>) -> bool {
    sign == "="@ || sign == "=="@ || sign == "!="@ || sign == "<"@ || sign == "<="@ || sign == ">"@
        || sign == ">="@
}

proof fn lemma_relation_is(s: Seq<char>, k: int, sign: Seq<char>)
    requires
        is_sign(sign),
        lies_at(s, sign, k),
        k + sign.len() < s.len(),
        s[k + sign.len()] == ' ',
    ensures
        sign.len() == 1 || sign.len() == 2,
        relation(s, k) == Some(
            (
                if sign == "="@ || sign == "=="@ {
                    Relation::Equal
                } else if sign == "!="@ {
                    Relation::Unequal
                } else if sign == "<"@ {
                    Relation::Below
                } else if sign == "<="@ {
                    Relation::AtMost
                } else if sign == ">"@ {
                    Relation::Above
                } else {
                    Relation::AtLeast
                },
                k + sign.len(),
            ),
        ),
{
    reveal_strlit("==");
    reveal_strlit("!=");
    reveal_strlit("<=");
    reveal_strlit(">=");
    reveal_strlit("=");
    reveal_strlit("<");
    reveal_strlit(">");
    assert(s[k + 0] == sign[0]);
    assert(s.subrange(k, k + 1) =~= seq![s[k]]);
    assert(s.subrange(k, k + 2) =~= seq![s[k], s[k + 1]]) by {
        assert(k + 2 <= s.len());
    }
    assert("="@ =~= seq!['=']);
    assert("<"@ =~= seq!['<']);
    assert(">"@ =~= seq!['>']);
    assert("=="@ =~= seq!['=', '=']);
    assert("!="@ =~= seq!['!', '=']);
    assert("<="@ =~= seq!['<', '=']);
    assert(">="@ =~= seq!['>', '=']);
    if sign.len() == 2 {
        assert(s[k + 1] == sign[1]);
    }
    assert(seq![s[k], s[k + 1]][0] == s[k]);
    assert(seq![s[k], s[k + 1]][1] == s[k + 1]);
    assert(seq![s[k]][0] == s[k]);
}

proof fn lemma_order(x: Seq<char>, y: Seq<char>)
    ensures
        !less(y, x) <==> (x == y || less(x, y)),
{
    crate::text::lemma_less_total(x, y);
    crate::text::lemma_less_irreflexive(x);
    if less(x, y) && less(y, x) {
        crate::text::lemma_less_transitive(x, y, x);
    }
}

/// Two texts are compared as their sign says: for equality, or by their order.
pub proof fn texts_are_compared_as_signs_say(x: Seq<char>, sign: Seq<char>, y: Seq<char>)
    requires
        is_bare(x),
        is_bare(y),
        is_sign(sign),
    ensures
        truth(quote(x) + seq![' '] + sign + seq![' '] + quote(y)) == Some(says(x, sign, y)),
{
    reveal_strlit("==");
    reveal_strlit("!=");
    reveal_strlit("<=");
    reveal_strlit(">=");
    reveal_strlit("=");
    reveal_strlit("<");
    reveal_strlit(">");
    let s = quote(x) + seq![' '] + sign + seq![' '] + quote(y);
    let n = s.len() as int;
    let k = x.len() as int + 3;
    let q = quote(x);
    let p = quote(y);
    let m = k + sign.len();
    assert forall|j: int| 0 <= j < q.len() implies s[0 + j] == #[trigger] q[j] by {}
    assert forall|j: int| 0 <= j < p.len() implies s[m + 1 + j] == #[trigger] p[j] by {}
    assert forall|j: int| 0 <= j < sign.len() implies s[k + j] == #[trigger] sign[j] by {}
    assert(s[0] == q[0]);
    assert(s[k - 1] == ' ' && s[k] == sign[0] && s[m] == ' ' && s[m + 1] == p[0]);
    lemma_space_ends(s, 0, 0);
    lemma_quoted_operand(s, 0, 0, x);
    assert(!is_space(sign[0]));
    lemma_space_ends(s, k - 1, k);
    lemma_relation_is(s, k, sign);
    lemma_space_ends(s, m, m + 1);
    lemma_quoted_operand(s, m, m + 1, y);
    lemma_order(x, y);
    lemma_order(y, x);
    lemma_no_sign(s, 0);
    lemma_alone(s, says(x, sign, y));
}

/// A text is compared with a pattern in slashes by whether the pattern matches it. A
/// pattern that is broken makes the expression malformed.
pub proof fn patterns_are_matched(x: Seq<char>, p: Seq<char>, equal: bool)
    requires
        is_bare(x),
        !p.contains('/'),
        !p.contains('\\'),
    ensures
        truth(
            quote(x) + seq![' '] + (if equal {
                "="@
            } else {
                "!="@
            }) + seq![' '] + (seq!['/'] + p + seq!['/']),
        ) == (match regex_groups(p, x) {
            None => None,
            Some(m) => Some(m is Some == equal),
        }),
{
    reveal_strlit("=");
    reveal_strlit("!=");
    reveal_strlit("&&");
    reveal_strlit("||");
    let sign = if equal {
        "="@
    } else {
        "!="@
    };
    let w = seq!['/'] + p + seq!['/'];
    let s = quote(x) + seq![' '] + sign + seq![' '] + w;
    let n = s.len() as int;
    let k = x.len() as int + 3;
    let q = quote(x);
    let m = k + sign.len();
    assert forall|j: int| 0 <= j < q.len() implies s[0 + j] == #[trigger] q[j] by {}
    assert forall|j: int| 0 <= j < p.len() implies s[m + 2 + j] == #[trigger] p[j] by {
        assert(s[m + 1 + (j + 1)] == w[j + 1]);
    }
    assert forall|j: int| 0 <= j < sign.len() implies s[k + j] == #[trigger] sign[j] by {}
    assert(s[0] == q[0]);
    assert(s[k - 1] == ' ' && s[k] == sign[0] && s[m] == ' ' && s[m + 1] == w[0]);
    assert(s[m + 2 + p.len()] == w[p.len() as int + 1]);
    lemma_space_ends(s, 0, 0);
    lemma_quoted_operand(s, 0, 0, x);
    lemma_space_ends(s, k - 1, k);
    lemma_relation_is(s, k, sign);
    lemma_space_ends(s, m, m + 1);
    lemma_enclosed_is(s, m + 2, p, '/', true);
    lemma_no_sign(s, 0);
    assert(operand(s, m) == Some((OperandView { text: p, regex: true }, n)));
    reveal_strlit("==");
    assert("!="@[0] == '!' && "=="@[0] == '=');
    assert(relation(s, k) == Some(
        (
            if equal {
                Relation::Equal
            } else {
                Relation::Unequal
            },
            m,
        ),
    ));
    assert(unary(s, 0) == comparison(s, 0));
    if let Some(found) = regex_groups(p, x) {
        lemma_alone(s, found is Some == equal);
    }
}

} // verus!
