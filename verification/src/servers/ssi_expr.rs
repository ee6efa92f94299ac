//! Conditions of server-side directives: comparisons of strings under `!`, `&&`
//! and `||`.

use vstd::prelude::*;

use crate::outside::{regex_captures, regex_groups};
use crate::servers::ssi_text::{past_space, skip_space};
use crate::text::{
    chars_of, comes_before, is_space, less, matches_at, space, stands_at, string_of,
};

verus! {

// ---------------------------------------------------------------------------
// Operands
// ---------------------------------------------------------------------------

/// One side of a comparison: a text, and whether it is a pattern.
pub struct OperandView {
    pub text: Seq<char>,
    pub regex: bool,
}

/// One side of a comparison.
#[derive(Debug)]
pub struct Operand {
    /// The text.
    pub text: String,
    /// Whether it is a pattern.
    pub regex: bool,
}

impl View for Operand {
    type V = OperandView;

    open spec fn view(&self) -> OperandView {
        OperandView { text: self.text@, regex: self.regex }
    }
}

/// The text up to a closing character, and the place after it; none where that
/// is missing. A backslash stands before a character of the text; in a pattern
/// it stays there.
pub open spec fn enclosed(s: Seq<char>, i: int, close: char, keep: bool) -> Option<(Seq<char>, int)>
    decreases s.len() - i,
{
    if i < 0 || i >= s.len() {
        None
    } else if s[i] == '\\' {
        if i + 1 >= s.len() {
            None
        } else {
            match enclosed(s, i + 2, close, keep) {
                Some(r) => Some(
                    (
                        (if keep {
                            seq!['\\', s[i + 1]]
                        } else {
                            seq![s[i + 1]]
                        }) + r.0,
                        r.1,
                    ),
                ),
                None => None,
            }
        }
    } else if s[i] == close {
        Some((Seq::empty(), i + 1))
    } else {
        match enclosed(s, i + 1, close, keep) {
            Some(r) => Some((seq![s[i]] + r.0, r.1)),
            None => None,
        }
    }
}

/// Whether a character ends a word of an expression.
pub open spec fn ends_word(c: char) -> bool {
    is_space(c) || c == '=' || c == '!' || c == '<' || c == '>' || c == '&' || c == '|' || c == ')'
}

/// The end of a word of an expression.
pub open spec fn word_stop(s: Seq<char>, i: int) -> int
    decreases s.len() - i,
{
    if i < 0 || i >= s.len() || ends_word(s[i]) {
        i
    } else {
        word_stop(s, i + 1)
    }
}

/// The operand at a place, and the place after it. At the end of the expression
/// it is empty.
pub open spec fn operand(s: Seq<char>, i: int) -> Option<(OperandView, int)> {
    let k = past_space(s, i);
    if k >= s.len() {
        Some((OperandView { text: Seq::empty(), regex: false }, k))
    } else if s[k] == '"' || s[k] == '\'' {
        match enclosed(s, k + 1, s[k], false) {
            Some(r) => Some((OperandView { text: r.0, regex: false }, r.1)),
            None => None,
        }
    } else if s[k] == '/' {
        match enclosed(s, k + 1, '/', true) {
            Some(r) => Some((OperandView { text: r.0, regex: true }, r.1)),
            None => None,
        }
    } else if word_stop(s, k) == k {
        None
    } else {
        Some(
            (
                OperandView { text: s.subrange(k, word_stop(s, k)), regex: false },
                word_stop(s, k),
            ),
        )
    }
}

fn read_enclosed(v: &[char], from: usize, close: char, keep: bool) -> (r: Option<(String, usize)>)
    requires
        from <= v@.len(),
    ensures
        match r {
            Some(p) => enclosed(v@, from as int, close, keep) == Some((p.0@, p.1 as int)) && from
                <= p.1 <= v@.len(),
            None => enclosed(v@, from as int, close, keep) is None,
        },
{
    let n: usize = v.len();
    let mut out = String::new();
    let mut i: usize = from;
    proof {
        if let Some(r) = enclosed(v@, from as int, close, keep) {
            assert(Seq::<char>::empty() + r.0 =~= r.0);
        }
    }
    loop
        invariant
            from <= i <= n,
            n == v@.len(),
            match enclosed(v@, i as int, close, keep) {
                Some(r) => enclosed(v@, from as int, close, keep) == Some((out@ + r.0, r.1)),
                None => enclosed(v@, from as int, close, keep) is None,
            },
        decreases n - i,
    {
        let ghost was = out@;
        if i >= n {
            return None;
        }
        let c: char = v[i];
        if c == '\\' {
            if n - i <= 1 {
                return None;
            }
            let e: char = v[i + 1];
            if keep {
                out.push('\\');
            }
            out.push(e);
            proof {
                if let Some(r) = enclosed(v@, i + 2, close, keep) {
                    let part = if keep {
                        seq!['\\', e]
                    } else {
                        seq![e]
                    };
                    assert(was + (part + r.0) =~= out@ + r.0);
                }
            }
            i = i + 2;
        } else if c == close {
            assert(was + Seq::<char>::empty() =~= was);
            return Some((out, i + 1));
        } else {
            out.push(c);
            proof {
                if let Some(r) = enclosed(v@, i + 1, close, keep) {
                    assert(was + (seq![c] + r.0) =~= out@ + r.0);
                }
            }
            i = i + 1;
        }
    }
}

fn stops_word(c: char) -> (r: bool)
    ensures
        r == ends_word(c),
{
    space(c) || c == '=' || c == '!' || c == '<' || c == '>' || c == '&' || c == '|' || c == ')'
}

fn read_operand(v: &[char], i: usize) -> (r: Option<(Operand, usize)>)
    requires
        i <= v@.len(),
    ensures
        match r {
            Some(p) => operand(v@, i as int) == Some((p.0@, p.1 as int)) && i <= p.1 <= v@.len(),
            None => operand(v@, i as int) is None,
        },
{
    let n: usize = v.len();
    let k: usize = skip_space(v, i);
    if k >= n {
        let text = String::new();
        assert(text@ =~= Seq::empty());
        return Some((Operand { text, regex: false }, k));
    }
    let c: char = v[k];
    if c == '"' || c == '\'' {
        match read_enclosed(v, k + 1, c, false) {
            Some(p) => Some((Operand { text: p.0, regex: false }, p.1)),
            None => None,
        }
    } else if c == '/' {
        match read_enclosed(v, k + 1, '/', true) {
            Some(p) => Some((Operand { text: p.0, regex: true }, p.1)),
            None => None,
        }
    } else {
        let mut e: usize = k;
        while e < n && !stops_word(v[e])
            invariant
                k <= e <= n,
                n == v@.len(),
                word_stop(v@, k as int) == word_stop(v@, e as int),
            decreases n - e,
        {
            e = e + 1;
        }
        if e == k {
            None
        } else {
            Some((Operand { text: string_of(v, k, e), regex: false }, e))
        }
    }
}

// ---------------------------------------------------------------------------
// Comparisons
// ---------------------------------------------------------------------------

/// How two sides are compared.
#[derive(Debug, Clone, Copy, PartialEq, Eq, Structural)]
pub enum Relation {
    Equal,
    Unequal,
    Below,
    AtMost,
    Above,
    AtLeast,
}

/// The relation that stands at a place, and the place after it.
pub open spec fn relation(s: Seq<char>, k: int) -> Option<(Relation, int)> {
    if stands_at(s, "=="@, k) {
        Some((Relation::Equal, k + 2))
    } else if stands_at(s, "!="@, k) {
        Some((Relation::Unequal, k + 2))
    } else if stands_at(s, "<="@, k) {
        Some((Relation::AtMost, k + 2))
    } else if stands_at(s, ">="@, k) {
        Some((Relation::AtLeast, k + 2))
    } else if stands_at(s, "="@, k) {
        Some((Relation::Equal, k + 1))
    } else if stands_at(s, "<"@, k) {
        Some((Relation::Below, k + 1))
    } else if stands_at(s, ">"@, k) {
        Some((Relation::Above, k + 1))
    } else {
        None
    }
}

/// Whether two texts are in a relation, by the order of their characters.
pub open spec fn related(a: Seq<char>, b: Seq<char>, r: Relation) -> bool {
    match r {
        Relation::Equal => a == b,
        Relation::Unequal => a != b,
        Relation::Below => less(a, b),
        Relation::AtMost => !less(b, a),
        Relation::Above => less(b, a),
        Relation::AtLeast => !less(a, b),
    }
}

/// Whether what a pattern found makes a comparison with it true; none where the
/// pattern is broken or is compared in another way than for equality.
pub open spec fn pattern_related<T>(found: Option<Option<T>>, r: Relation) -> Option<bool> {
    match found {
        None => None,
        Some(m) => match r {
            Relation::Equal => Some(m is Some),
            Relation::Unequal => Some(m is None),
            _ => None,
        },
    }
}

/// What a comparison of two sides comes to.
pub open spec fn compared(left: OperandView, right: OperandView, r: Relation) -> Option<bool> {
    if right.regex {
        pattern_related(regex_groups(right.text, left.text), r)
    } else {
        Some(related(left.text, right.text, r))
    }
}

/// What the comparison at a place comes to, and the place after it. A side alone
/// is true where it is not empty.
pub open spec fn comparison(s: Seq<char>, i: int) -> Option<(bool, int)> {
    match operand(s, i) {
        None => None,
        Some(l) => {
            let k = past_space(s, l.1);
            match relation(s, k) {
                None => Some((l.0.text.len() > 0, k)),
                Some(r) => match operand(s, r.1) {
                    None => None,
                    Some(o) => match compared(l.0, o.0, r.0) {
                        Some(b) => Some((b, o.1)),
                        None => None,
                    },
                },
            }
        },
    }
}

fn eats(v: &[char], k: usize, token: &str) -> (r: bool)
    requires
        k <= v@.len(),
    ensures
        r == stands_at(v@, token@, k as int),
{
    let t = chars_of(token);
    matches_at(v, t.as_slice(), k)
}

proof fn lemma_token_lengths()
    ensures
        "=="@.len() == 2,
        "!="@.len() == 2,
        "<="@.len() == 2,
        ">="@.len() == 2,
        "="@.len() == 1,
        "<"@.len() == 1,
        ">"@.len() == 1,
        "||"@.len() == 2,
        "&&"@.len() == 2,
        "!"@.len() == 1,
        "("@.len() == 1,
        ")"@.len() == 1,
{
    reveal_strlit("==");
    reveal_strlit("!=");
    reveal_strlit("<=");
    reveal_strlit(">=");
    reveal_strlit("=");
    reveal_strlit("<");
    reveal_strlit(">");
    reveal_strlit("||");
    reveal_strlit("&&");
    reveal_strlit("!");
    reveal_strlit("(");
    reveal_strlit(")");
}

fn read_relation(v: &[char], k: usize) -> (r: Option<(Relation, usize)>)
    requires
        k <= v@.len(),
    ensures
        match r {
            Some(p) => relation(v@, k as int) == Some((p.0, p.1 as int)) && k <= p.1 <= v@.len(),
            None => relation(v@, k as int) is None,
        },
{
    proof {
        lemma_token_lengths();
    }
    let n: usize = v.len();
    if eats(v, k, "==") {
        Some((Relation::Equal, k + 2))
    } else if eats(v, k, "!=") {
        Some((Relation::Unequal, k + 2))
    } else if eats(v, k, "<=") {
        Some((Relation::AtMost, k + 2))
    } else if eats(v, k, ">=") {
        Some((Relation::AtLeast, k + 2))
    } else if eats(v, k, "=") {
        Some((Relation::Equal, k + 1))
    } else if eats(v, k, "<") {
        Some((Relation::Below, k + 1))
    } else if eats(v, k, ">") {
        Some((Relation::Above, k + 1))
    } else {
        None
    }
}

fn are_related(a: &str, b: &str, r: Relation) -> (out: bool)
    ensures
        out == related(a@, b@, r),
{
    match r {
        Relation::Equal => a.eq(b),
        Relation::Unequal => !a.eq(b),
        Relation::Below => comes_before(a, b),
        Relation::AtMost => !comes_before(b, a),
        Relation::Above => comes_before(b, a),
        Relation::AtLeast => !comes_before(a, b),
    }
}

/// Whether what a pattern found makes a comparison with it true.
pub fn pattern_matches(found: &Option<Option<Vec<Option<String>>>>, r: Relation) -> (out: Option<
    bool,
>)
    ensures
        out == pattern_related(found.deep_view(), r),
{
    match found {
        None => None,
        Some(m) => match r {
            Relation::Equal => Some(m.is_some()),
            Relation::Unequal => Some(m.is_none()),
            _ => None,
        },
    }
}

fn read_comparison(v: &[char], i: usize) -> (r: Option<(bool, usize)>)
    requires
        i <= v@.len(),
    ensures
        match r {
            Some(p) => comparison(v@, i as int) == Some((p.0, p.1 as int)) && i <= p.1 <= v@.len(),
            None => comparison(v@, i as int) is None,
        },
{
    let (left, j) = match read_operand(v, i) {
        None => {
            return None;
        },
        Some(p) => p,
    };
    let k: usize = skip_space(v, j);
    let (rel, m) = match read_relation(v, k) {
        None => {
            return Some((!left.text.as_str().is_empty(), k));
        },
        Some(p) => p,
    };
    let (right, e) = match read_operand(v, m) {
        None => {
            return None;
        },
        Some(p) => p,
    };
    if right.regex {
        let found = regex_captures(right.text.as_str(), left.text.as_str());
        match pattern_matches(&found, rel) {
            Some(b) => Some((b, e)),
            None => None,
        }
    } else {
        Some((are_related(left.text.as_str(), right.text.as_str(), rel), e))
    }
}

// ---------------------------------------------------------------------------
// Expressions
// ---------------------------------------------------------------------------

/// What follows one side of `||`: more sides, each of which has to be well
/// formed.
pub open spec fn or_rest(s: Seq<char>, value: bool, j: int) -> Option<(bool, int)>
    decreases s.len() - j, 3int,
{
    let k = past_space(s, j);
    if j < 0 || k < j || k > s.len() {
        None
    } else if stands_at(s, "||"@, k) && k + 2 <= s.len() {
        match and_at(s, k + 2) {
            None => None,
            Some(r) => if r.1 <= j || r.1 > s.len() {
                None
            } else {
                or_rest(s, r.0 || value, r.1)
            },
        }
    } else {
        Some((value, k))
    }
}

/// The sides of `||` at a place.
pub open spec fn or_at(s: Seq<char>, i: int) -> Option<(bool, int)>
    decreases s.len() - i, 4int,
{
    match and_at(s, i) {
        None => None,
        Some(r) => if r.1 < i || r.1 > s.len() {
            None
        } else {
            or_rest(s, r.0, r.1)
        },
    }
}

/// What follows one side of `&&`.
pub open spec fn and_rest(s: Seq<char>, value: bool, j: int) -> Option<(bool, int)>
    decreases s.len() - j, 1int,
{
    let k = past_space(s, j);
    if j < 0 || k < j || k > s.len() {
        None
    } else if stands_at(s, "&&"@, k) && k + 2 <= s.len() {
        match unary(s, k + 2) {
            None => None,
            Some(r) => if r.1 <= j || r.1 > s.len() {
                None
            } else {
                and_rest(s, r.0 && value, r.1)
            },
        }
    } else {
        Some((value, k))
    }
}

/// The sides of `&&` at a place.
pub open spec fn and_at(s: Seq<char>, i: int) -> Option<(bool, int)>
    decreases s.len() - i, 2int,
{
    match unary(s, i) {
        None => None,
        Some(r) => if r.1 < i || r.1 > s.len() {
            None
        } else {
            and_rest(s, r.0, r.1)
        },
    }
}

/// A comparison, an expression in parentheses, or either after `!`.
pub open spec fn unary(s: Seq<char>, i: int) -> Option<(bool, int)>
    decreases s.len() - i, 0int,
{
    let k = past_space(s, i);
    if i < 0 || k < i || k > s.len() {
        None
    } else if stands_at(s, "!"@, k) && k + 1 <= s.len() {
        match unary(s, k + 1) {
            Some(r) => Some((!r.0, r.1)),
            None => None,
        }
    } else if stands_at(s, "("@, k) && k + 1 <= s.len() {
        match or_at(s, k + 1) {
            Some(r) => {
                let e = past_space(s, r.1);
                if stands_at(s, ")"@, e) {
                    Some((r.0, e + 1))
                } else {
                    None
                }
            },
            None => None,
        }
    } else {
        comparison(s, i)
    }
}

/// What an expression comes to; none where it is malformed.
pub open spec fn truth(s: Seq<char>) -> Option<bool> {
    match or_at(s, 0) {
        Some(r) => if past_space(s, r.1) == s.len() {
            Some(r.0)
        } else {
            None
        },
        None => None,
    }
}

fn read_or(v: &[char], i: usize) -> (r: Option<(bool, usize)>)
    requires
        i <= v@.len(),
    ensures
        match r {
            Some(p) => or_at(v@, i as int) == Some((p.0, p.1 as int)) && i <= p.1 <= v@.len(),
            None => or_at(v@, i as int) is None,
        },
    decreases v@.len() - i, 4int,
{
    proof {
        lemma_token_lengths();
    }
    let n: usize = v.len();
    let (mut value, mut j) = match read_and(v, i) {
        None => {
            return None;
        },
        Some(p) => p,
    };
    loop
        invariant
            i <= j <= n,
            n == v@.len(),
            "||"@.len() == 2,
            or_at(v@, i as int) == or_rest(v@, value, j as int),
        decreases n - j,
    {
        let k: usize = skip_space(v, j);
        if eats(v, k, "||") {
            match read_and(v, k + 2) {
                None => {
                    return None;
                },
                Some(p) => {
                    value = p.0 || value;
                    j = p.1;
                },
            }
        } else {
            return Some((value, k));
        }
    }
}

fn read_and(v: &[char], i: usize) -> (r: Option<(bool, usize)>)
    requires
        i <= v@.len(),
    ensures
        match r {
            Some(p) => and_at(v@, i as int) == Some((p.0, p.1 as int)) && i <= p.1 <= v@.len(),
            None => and_at(v@, i as int) is None,
        },
    decreases v@.len() - i, 2int,
{
    proof {
        lemma_token_lengths();
    }
    let n: usize = v.len();
    let (mut value, mut j) = match read_unary(v, i) {
        None => {
            return None;
        },
        Some(p) => p,
    };
    loop
        invariant
            i <= j <= n,
            n == v@.len(),
            "&&"@.len() == 2,
            and_at(v@, i as int) == and_rest(v@, value, j as int),
        decreases n - j,
    {
        let k: usize = skip_space(v, j);
        if eats(v, k, "&&") {
            match read_unary(v, k + 2) {
                None => {
                    return None;
                },
                Some(p) => {
                    value = p.0 && value;
                    j = p.1;
                },
            }
        } else {
            return Some((value, k));
        }
    }
}

fn read_unary(v: &[char], i: usize) -> (r: Option<(bool, usize)>)
    requires
        i <= v@.len(),
    ensures
        match r {
            Some(p) => unary(v@, i as int) == Some((p.0, p.1 as int)) && i <= p.1 <= v@.len(),
            None => unary(v@, i as int) is None,
        },
    decreases v@.len() - i, 0int,
{
    proof {
        lemma_token_lengths();
    }
    let n: usize = v.len();
    let k: usize = skip_space(v, i);
    if eats(v, k, "!") {
        match read_unary(v, k + 1) {
            Some(p) => Some((!p.0, p.1)),
            None => None,
        }
    } else if eats(v, k, "(") {
        match read_or(v, k + 1) {
            Some(p) => {
                let e: usize = skip_space(v, p.1);
                if eats(v, e, ")") {
                    Some((p.0, e + 1))
                } else {
                    None
                }
            },
            None => None,
        }
    } else {
        read_comparison(v, i)
    }
}

/// What an expression comes to; none where it is malformed.
pub fn eval_expr(expr: &str) -> (r: Option<bool>)
    ensures
        r == truth(expr@),
{
    let chars = chars_of(expr);
    let v = chars.as_slice();
    let n: usize = v.len();
    match read_or(v, 0) {
        Some(p) => {
            let e: usize = skip_space(v, p.1);
            if e == n {
                Some(p.0)
            } else {
                None
            }
        },
        None => None,
    }
}

} // verus!
