//! What redirects and rewrites do to a request.

use vstd::prelude::*;

use crate::digits::decimal;
use crate::laws::wording::{
    lemma_first_replaced, lemma_not_prefixed, lemma_nothing_replaced, lemma_prefixed,
    numbers_read_back,
};
use crate::outside::regex_groups;
use crate::servers::htaccess::{RedirectView, RewriteCondView, RewriteRuleView, RulesView};
use crate::servers::rewrite::{
    asks_redirect, backrefs, cond_holds, conds_hold, filled, first_redirect, first_rewrite,
    group_text, outcome, redirect_status, redirect_word, rewritten, rule_subject, tested,
    RewriteOutcomeView, Subject,
};
use crate::text::{replace_all, same_letters, starts_with, trim_start, Class};

verus! {

// ---------------------------------------------------------------------------
// Conditions
// ---------------------------------------------------------------------------

/// Whether a pattern compiles and is found in a text.
pub open spec fn is_found(pattern: Seq<char>, text: Seq<char>) -> bool {
    regex_groups(pattern, text) matches Some(Some(_))
}

/// A condition holds where its pattern is found in what its test string stands for,
/// in either case of the letters where that is asked for. With `!` before its pattern
/// it holds exactly where it would not hold without, so that just one of the two
/// holds of every request.
pub proof fn conditions_hold_or_their_opposites_do(c: RewriteCondView, s: Subject)
    ensures
        cond_holds(RewriteCondView { negate: true, ..c }, s) == !cond_holds(
            RewriteCondView { negate: false, ..c },
            s,
        ),
        cond_holds(RewriteCondView { negate: false, nocase: false, ..c }, s) == is_found(
            c.pattern,
            tested(c.test_string, s),
        ),
        cond_holds(RewriteCondView { negate: false, nocase: true, ..c }, s) == is_found(
            "(?i)"@ + c.pattern,
            tested(c.test_string, s),
        ),
{
}

/// Conditions hold together exactly where each of them holds.
pub proof fn each_condition_has_to_hold(a: Seq<RewriteCondView>, c: RewriteCondView, s: Subject)
    ensures
        conds_hold(Seq::empty(), s),
        conds_hold(a.push(c), s) == (conds_hold(a, s) && cond_holds(c, s)),
{
    let l = a.push(c);
    if conds_hold(l, s) {
        assert forall|i: int| 0 <= i < a.len() implies cond_holds(#[trigger] a[i], s) by {
            assert(l[i] == a[i]);
        }
        assert(l[a.len() as int] == c);
    }
    if conds_hold(a, s) && cond_holds(c, s) {
        assert forall|i: int| 0 <= i < l.len() implies cond_holds(#[trigger] l[i], s) by {
            if i < a.len() {
                assert(l[i] == a[i]);
            }
        }
    }
}

proof fn lemma_variable_lengths()
    ensures
        "%{REQUEST_URI}"@.len() == 14 && "%{REQUEST_URI}"@[0] == '%',
        "%{QUERY_STRING}"@.len() == 15 && "%{QUERY_STRING}"@[0] == '%',
        "%{HTTP_HOST}"@.len() == 12 && "%{HTTP_HOST}"@[0] == '%',
        "%{REQUEST_METHOD}"@.len() == 17 && "%{REQUEST_METHOD}"@[0] == '%',
        "%{REMOTE_ADDR}"@.len() == 14 && "%{REMOTE_ADDR}"@[0] == '%',
        "%{REQUEST_URI}"@[4] == 'Q',
        "%{REMOTE_ADDR}"@[4] == 'M',
{
    reveal_strlit("%{REQUEST_URI}");
    reveal_strlit("%{QUERY_STRING}");
    reveal_strlit("%{HTTP_HOST}");
    reveal_strlit("%{REQUEST_METHOD}");
    reveal_strlit("%{REMOTE_ADDR}");
}

/// A variable that is not asked for is not put in.
proof fn lemma_other_variable(v: Seq<char>, p: Seq<char>, by: Seq<char>)
    requires
        v.len() > 0,
        p.len() > 0,
        p[0] == '%',
        forall|i: int| 0 < i < v.len() ==> #[trigger] v[i] != '%',
        v.len() < p.len() || !starts_with(v, p),
    ensures
        replace_all(v, p, by) == v,
{
    crate::text::lemma_find(v, p, 0);
    if let Some(i) = crate::text::find(v, p, 0) {
        assert(v.subrange(i, i + p.len())[0] == v[i]);
        assert(i == 0);
    }
}

proof fn lemma_whole(p: Seq<char>, by: Seq<char>)
    requires
        p.len() > 0,
    ensures
        replace_all(p, p, by) == by,
{
    let none = Seq::<char>::empty();
    assert(none + p + none =~= p);
    assert(!none.contains(p[0]));
    lemma_first_replaced(none, p, none, by);
    lemma_nothing_replaced(none, p, by);
    assert(none + by + none =~= by);
}

proof fn lemma_only_one_percent(v: Seq<char>)
    requires
        v == "%{REQUEST_URI}"@ || v == "%{QUERY_STRING}"@ || v == "%{HTTP_HOST}"@ || v
            == "%{REQUEST_METHOD}"@ || v == "%{REMOTE_ADDR}"@,
    ensures
        forall|i: int| 0 < i < v.len() ==> #[trigger] v[i] != '%',
        v != "%{REQUEST_URI}"@ ==> !starts_with(v, "%{REQUEST_URI}"@),
        v != "%{QUERY_STRING}"@ ==> !starts_with(v, "%{QUERY_STRING}"@),
        v != "%{HTTP_HOST}"@ ==> !starts_with(v, "%{HTTP_HOST}"@),
        v != "%{REQUEST_METHOD}"@ ==> !starts_with(v, "%{REQUEST_METHOD}"@),
        v != "%{REMOTE_ADDR}"@ ==> !starts_with(v, "%{REMOTE_ADDR}"@),
        v.len() > 0 && v[0] == '%',
{
    reveal_strlit("%{REQUEST_URI}");
    reveal_strlit("%{QUERY_STRING}");
    reveal_strlit("%{HTTP_HOST}");
    reveal_strlit("%{REQUEST_METHOD}");
    reveal_strlit("%{REMOTE_ADDR}");
    assert("%{REQUEST_URI}"@[2] == 'R' && "%{QUERY_STRING}"@[2] == 'Q' && "%{HTTP_HOST}"@[2] == 'H');
    assert("%{REQUEST_METHOD}"@[10] == 'M' && "%{REQUEST_URI}"@[10] == 'U');
    assert("%{REMOTE_ADDR}"@[4] == 'M' && "%{REQUEST_URI}"@[4] == 'Q' && "%{REQUEST_METHOD}"@[4]
        == 'Q');
    if starts_with(v, "%{REQUEST_URI}"@) {
        assert(v.subrange(0, 14)[2] == v[2]);
        assert(v.subrange(0, 14)[4] == v[4]);
        assert(v.subrange(0, 14)[10] == v[10]);
    }
    if starts_with(v, "%{QUERY_STRING}"@) {
        assert(v.subrange(0, 15)[2] == v[2]);
    }
    if starts_with(v, "%{HTTP_HOST}"@) {
        assert(v.subrange(0, 12)[2] == v[2]);
    }
    if starts_with(v, "%{REQUEST_METHOD}"@) {
        assert(v.subrange(0, 17)[2] == v[2]);
        assert(v.subrange(0, 17)[4] == v[4]);
    }
    if starts_with(v, "%{REMOTE_ADDR}"@) {
        assert(v.subrange(0, 14)[2] == v[2]);
        assert(v.subrange(0, 14)[4] == v[4]);
    }
}

/// What a test string stands for: each variable for what the request has of it, where
/// that holds no percent sign of its own; and a text without one for itself.
pub proof fn test_strings_stand_for_the_request(s: Subject, text: Seq<char>)
    requires
        !text.contains('%'),
        !s.path.contains('%'),
        !s.query.contains('%'),
        s.headers.contains_key("host"@) ==> !s.headers["host"@].contains('%'),
        !s.method.contains('%'),
    ensures
        tested(text, s) == text,
        tested("%{REQUEST_URI}"@, s) == s.path,
        tested("%{QUERY_STRING}"@, s) == s.query,
        s.headers.contains_key("host"@) ==> tested("%{HTTP_HOST}"@, s) == s.headers["host"@],
        !s.headers.contains_key("host"@) ==> tested("%{HTTP_HOST}"@, s) == ""@,
        tested("%{REQUEST_METHOD}"@, s) == s.method,
        tested("%{REMOTE_ADDR}"@, s) == s.remote,
{
    lemma_variable_lengths();
    reveal_strlit("");
    let host = if s.headers.contains_key("host"@) {
        s.headers["host"@]
    } else {
        ""@
    };
    lemma_plain_test(text, s);
    lemma_plain_test(s.path, s);
    lemma_plain_test(s.query, s);
    lemma_plain_test(host, s);
    let u = "%{REQUEST_URI}"@;
    let q = "%{QUERY_STRING}"@;
    let h = "%{HTTP_HOST}"@;
    let m = "%{REQUEST_METHOD}"@;
    let r = "%{REMOTE_ADDR}"@;
    lemma_only_one_percent(u);
    lemma_only_one_percent(q);
    lemma_only_one_percent(h);
    lemma_only_one_percent(m);
    lemma_only_one_percent(r);
    lemma_whole(u, s.path);
    lemma_whole(q, s.query);
    lemma_whole(h, host);
    lemma_whole(m, s.method);
    lemma_whole(r, s.remote);
    assert(q != u && h != u && m != u && h != q && m != q && m != h && r != q && r != h && r != m);
    assert(r != u) by {
        assert(r[4] != u[4]);
    }
    lemma_other_variable(q, u, s.path);
    lemma_other_variable(h, u, s.path);
    lemma_other_variable(m, u, s.path);
    lemma_other_variable(r, u, s.path);
    lemma_other_variable(h, q, s.query);
    lemma_other_variable(m, q, s.query);
    lemma_other_variable(r, q, s.query);
    lemma_other_variable(m, h, host);
    lemma_other_variable(r, h, host);
    lemma_other_variable(r, m, s.method);
    lemma_nothing_replaced(s.path, q, s.query);
    lemma_nothing_replaced(s.path, h, host);
    lemma_nothing_replaced(s.path, m, s.method);
    lemma_nothing_replaced(s.path, r, s.remote);
    lemma_nothing_replaced(s.query, h, host);
    lemma_nothing_replaced(s.query, m, s.method);
    lemma_nothing_replaced(s.query, r, s.remote);
    lemma_nothing_replaced(host, m, s.method);
    lemma_nothing_replaced(host, r, s.remote);
    lemma_nothing_replaced(s.method, r, s.remote);
}

proof fn lemma_plain_test(t: Seq<char>, s: Subject)
    requires
        !t.contains('%'),
    ensures
        tested(t, s) == t,
{
    lemma_variable_lengths();
    let host = if s.headers.contains_key("host"@) {
        s.headers["host"@]
    } else {
        ""@
    };
    lemma_nothing_replaced(t, "%{REQUEST_URI}"@, s.path);
    lemma_nothing_replaced(t, "%{QUERY_STRING}"@, s.query);
    lemma_nothing_replaced(t, "%{HTTP_HOST}"@, host);
    lemma_nothing_replaced(t, "%{REQUEST_METHOD}"@, s.method);
    lemma_nothing_replaced(t, "%{REMOTE_ADDR}"@, s.remote);
}

// ---------------------------------------------------------------------------
// Back references
// ---------------------------------------------------------------------------

/// A template without a dollar sign stands for itself.
proof fn lemma_plain_template(t: Seq<char>, g: Seq<Option<Seq<char>>>, i: int)
    requires
        0 <= i <= t.len(),
        !t.contains('$'),
    ensures
        filled(t, g, i) == t.skip(i),
    decreases t.len() - i,
{
    if i < t.len() {
        assert(t.contains(t[i]));
        lemma_plain_template(t, g, i + 1);
        assert(seq![t[i]] + t.skip(i + 1) =~= t.skip(i));
    } else {
        assert(t.skip(i) =~= Seq::<char>::empty());
    }
}

/// The parts of a template are filled in one after the other, where the first does not
/// end in a dollar sign.
proof fn lemma_template_parts(a: Seq<char>, b: Seq<char>, g: Seq<Option<Seq<char>>>, i: int)
    requires
        0 <= i <= a.len(),
        a.len() > 0 ==> a.last() != '$',
    ensures
        filled(a + b, g, i) == filled(a, g, i) + filled(b, g, 0),
    decreases a.len() - i,
{
    let t = a + b;
    if i == a.len() {
        lemma_shifted(a, b, g, 0);
        assert(filled(a, g, i) + filled(b, g, 0) =~= filled(b, g, 0));
    } else {
        assert(t[i] == a[i]);
        if a[i] == '$' {
            assert(i + 1 < a.len());
            assert(t[i + 1] == a[i + 1]);
        }
        if a[i] == '$' && '0' <= a[i + 1] <= '9' {
            lemma_template_parts(a, b, g, i + 2);
            let x = group_text(g, a[i + 1] as int - '0' as int);
            assert(x + (filled(a, g, i + 2) + filled(b, g, 0)) =~= (x + filled(a, g, i + 2))
                + filled(b, g, 0));
        } else {
            lemma_template_parts(a, b, g, i + 1);
            let x = seq![a[i]];
            assert(x + (filled(a, g, i + 1) + filled(b, g, 0)) =~= (x + filled(a, g, i + 1))
                + filled(b, g, 0));
        }
    }
}

proof fn lemma_shifted(a: Seq<char>, b: Seq<char>, g: Seq<Option<Seq<char>>>, i: int)
    requires
        0 <= i <= b.len(),
    ensures
        filled(a + b, g, a.len() + i) == filled(b, g, i),
    decreases b.len() - i,
{
    let t = a + b;
    let n = a.len() as int;
    if i < b.len() {
        assert(t[n + i] == b[i]);
        if i + 1 < b.len() {
            assert(t[n + i + 1] == b[i + 1]);
        }
        if b[i] == '$' && i + 1 < b.len() && '0' <= b[i + 1] <= '9' {
            lemma_shifted(a, b, g, i + 2);
        } else {
            lemma_shifted(a, b, g, i + 1);
        }
    }
}

/// A dollar sign and a digit stand for the group of that number, which is empty where
/// it took no part in the match or is not there; all other text stands for itself.
pub proof fn references_stand_for_groups(
    a: Seq<char>,
    d: int,
    b: Seq<char>,
    g: Seq<Option<Seq<char>>>,
)
    requires
        !a.contains('$'),
        !b.contains('$'),
        0 <= d <= 9,
    ensures
        backrefs(a, g) == a,
        backrefs(a + seq!['$', ('0' as int + d) as char] + b, g) == a + (if d < g.len() && g[d]
            is Some {
            g[d]->0
        } else {
            Seq::empty()
        }) + b,
{
    lemma_plain_template(a, g, 0);
    lemma_plain_template(b, g, 0);
    assert(a.skip(0) =~= a);
    assert(b.skip(0) =~= b);
    let c = ('0' as int + d) as char;
    let r = seq!['$', c];
    assert(c as int == '0' as int + d);
    if a.len() > 0 {
        assert(a.contains(a.last()));
    }
    let group = group_text(g, d);
    assert(filled(r, g, 2) == Seq::<char>::empty());
    assert(filled(r, g, 0) == group + filled(r, g, 2));
    assert(group + Seq::<char>::empty() =~= group);
    lemma_template_parts(a, r + b, g, 0);
    lemma_template_parts(r, b, g, 0);
    assert(a + r + b =~= a + (r + b));
    assert(a + (group + b) =~= a + group + b);
}

// ---------------------------------------------------------------------------
// Rules
// ---------------------------------------------------------------------------

/// One rule that applies and changes the path.
pub open spec fn one_rule(r: RewriteRuleView) -> RulesView {
    RulesView {
        rewrite_engine: true,
        rewrite_rules: seq![r],
        redirects: Seq::empty(),
        ..crate::servers::htaccess::no_rules()
    }
}

/// A rule changes a request exactly where its pattern is found in the path seen from
/// its directory, and all its conditions hold.
pub proof fn rules_apply_where_they_match(r: RewriteRuleView, s: Subject)
    requires
        forall|i: int| 0 <= i < r.flags.len() ==> !same_letters(#[trigger] r.flags[i], "NC"@),
    ensures
        (outcome(one_rule(r), s) != RewriteOutcomeView::Unchanged) == (is_found(
            r.pattern,
            rule_subject(r.dir, s.path),
        ) && forall|i: int| 0 <= i < r.conds.len() ==> cond_holds(#[trigger] r.conds[i], s)),
{
    let l = seq![r];
    assert(l.skip(1) =~= Seq::<RewriteRuleView>::empty());
    assert(first_rewrite(l.skip(1), s) == RewriteOutcomeView::Unchanged);
    assert(l[0] == r);
}

/// With `NC`, letters match in either case.
pub proof fn rules_may_ignore_case(r: RewriteRuleView, s: Subject)
    requires
        exists|i: int| 0 <= i < r.flags.len() && same_letters(#[trigger] r.flags[i], "NC"@),
        r.conds.len() == 0,
    ensures
        (outcome(one_rule(r), s) != RewriteOutcomeView::Unchanged) == is_found(
            "(?i)"@ + r.pattern,
            rule_subject(r.dir, s.path),
        ),
{
    let l = seq![r];
    assert(l.skip(1) =~= Seq::<RewriteRuleView>::empty());
    assert(first_rewrite(l.skip(1), s) == RewriteOutcomeView::Unchanged);
    assert(l[0] == r);
}

/// The first rule that applies decides: rules before it that do not apply, and rules
/// after it, make no difference.
pub proof fn the_first_rule_decides(
    a: Seq<RewriteRuleView>,
    b: Seq<RewriteRuleView>,
    s: Subject,
)
    ensures
        first_rewrite(a + b, s) == (if first_rewrite(a, s) == RewriteOutcomeView::Unchanged {
            first_rewrite(b, s)
        } else {
            first_rewrite(a, s)
        }),
    decreases a.len(),
{
    if a.len() == 0 {
        assert(a + b =~= b);
    } else {
        assert((a + b).skip(1) =~= a.skip(1) + b);
        assert((a + b)[0] == a[0]);
        the_first_rule_decides(a.skip(1), b, s);
    }
}

/// The first redirect that applies decides.
pub proof fn the_first_redirect_decides(a: Seq<RedirectView>, b: Seq<RedirectView>, path: Seq<char>)
    ensures
        first_redirect(a + b, path) == (if first_redirect(a, path)
            == RewriteOutcomeView::Unchanged {
            first_redirect(b, path)
        } else {
            first_redirect(a, path)
        }),
    decreases a.len(),
{
    if a.len() == 0 {
        assert(a + b =~= b);
    } else {
        assert((a + b).skip(1) =~= a.skip(1) + b);
        assert((a + b)[0] == a[0]);
        the_first_redirect_decides(a.skip(1), b, path);
    }
}

/// A rule sees the path from the directory of its file, without the slash before it.
pub proof fn rules_see_paths_from_their_directory(dir: Seq<char>, rest: Seq<char>)
    requires
        dir.len() > 0 ==> dir[0] != '/' && dir.last() != '/',
        rest.len() > 0 ==> rest[0] != '/',
    ensures
        rule_subject(Seq::empty(), seq!['/'] + rest) == rest,
        dir.len() > 0 ==> rule_subject(dir, seq!['/'] + dir + seq!['/'] + rest) == rest,
{
    reveal_strlit("/");
    let p = seq!['/'] + rest;
    assert(p.skip(1) =~= rest);
    assert(trim_start(p, Class::One('/')) == trim_start(rest, Class::One('/')));
    if dir.len() > 0 {
        let q = seq!['/'] + dir + seq!['/'] + rest;
        let t = dir + "/"@;
        assert(q.skip(1) =~= t + rest);
        assert((t + rest)[0] == dir[0]);
        assert(trim_start(q, Class::One('/')) == trim_start(q.skip(1), Class::One('/')));
        lemma_prefixed(t, rest);
    }
}

/// A path that does not lie below the directory of a rule is seen from the root.
pub proof fn other_paths_are_seen_from_the_root(dir: Seq<char>, rest: Seq<char>)
    requires
        dir.len() > 0 && dir.last() != '/',
        rest.len() > 0 ==> rest[0] != '/',
        !starts_with(rest, dir + seq!['/']),
    ensures
        rule_subject(dir, seq!['/'] + rest) == rest,
{
    reveal_strlit("/");
    assert("/"@ =~= seq!['/']);
    let p = seq!['/'] + rest;
    assert(p.skip(1) =~= rest);
    assert(trim_start(p, Class::One('/')) == trim_start(rest, Class::One('/')));
}

/// A rule without `R` puts its substitution in the place of the path: as it stands
/// where that starts with a slash, and otherwise below the directory of its file.
pub proof fn substitutions_take_the_place_of_the_path(
    r: RewriteRuleView,
    g: Seq<Option<Seq<char>>>,
)
    requires
        !r.substitution.contains('$'),
        r.dir.len() > 0 ==> r.dir.last() != '/',
    ensures
        ({
            let p = if r.substitution.len() > 0 && r.substitution[0] == '/' {
                r.substitution
            } else if r.dir.len() == 0 {
                seq!['/'] + r.substitution
            } else {
                seq!['/'] + r.dir + seq!['/'] + r.substitution
            };
            rewritten(r, g) == (if exists|i: int|
                0 <= i < r.flags.len() && (#[trigger] r.flags[i] == "R"@ || starts_with(
                    r.flags[i],
                    "R="@,
                )) {
                RewriteOutcomeView::Redirect(redirect_status(r.flags), p)
            } else {
                RewriteOutcomeView::Rewritten(p)
            })
        }),
{
    reveal_strlit("/");
    assert("/"@ =~= seq!['/']);
    let t = r.substitution;
    lemma_plain_template(t, g, 0);
    assert(t.skip(0) =~= t);
    if t.len() > 0 && t[0] == '/' {
        assert(t.subrange(0, 1) =~= "/"@);
    } else {
        lemma_not_prefixed("/"@, t);
    }
}

/// The status of a redirect is the one that its flag gives, and 302 where it gives
/// none.
pub proof fn redirects_have_the_status_of_their_flag(code: u16, f: Seq<Seq<char>>)
    ensures
        asks_redirect(seq!["R="@ + decimal(code as int)]),
        redirect_status(seq!["R="@ + decimal(code as int)]) == code,
        asks_redirect(seq!["R"@]),
        redirect_status(seq!["R"@]) == 302,
        !asks_redirect(Seq::empty()),
{
    reveal_strlit("R=");
    reveal_strlit("R");
    let flag = "R="@ + decimal(code as int);
    lemma_prefixed("R="@, decimal(code as int));
    numbers_read_back(code as int);
    let l = seq![flag];
    assert(l[0] == flag);
    let p = seq!["R"@];
    assert(p[0] == "R"@);
    assert(p.skip(1) =~= Seq::<Seq<char>>::empty());
    assert(redirect_word(p.skip(1)) is None);
}

/// A `Redirect` sends every path that starts with its prefix to its target, with its
/// status, and no other path.
pub proof fn redirects_go_by_prefix(r: RedirectView, prefix: Seq<char>, rest: Seq<char>)
    requires
        !r.is_regex,
        r.pattern == seq!['/'] + prefix,
        prefix.len() > 0 ==> prefix[0] != '/',
        rest.len() > 0 ==> rest[0] != '/',
    ensures
        starts_with(rest, prefix) ==> first_redirect(seq![r], seq!['/'] + rest)
            == RewriteOutcomeView::Redirect(r.status, r.target),
        !starts_with(rest, prefix) ==> first_redirect(seq![r], seq!['/'] + rest)
            == RewriteOutcomeView::Unchanged,
{
    let l = seq![r];
    assert(l[0] == r);
    assert(l.skip(1) =~= Seq::<RedirectView>::empty());
    assert((seq!['/'] + prefix).skip(1) =~= prefix);
    assert((seq!['/'] + rest).skip(1) =~= rest);
    assert(trim_start(seq!['/'] + prefix, Class::One('/')) == trim_start(prefix, Class::One('/')));
    assert(trim_start(seq!['/'] + rest, Class::One('/')) == trim_start(rest, Class::One('/')));
    assert(first_redirect(l.skip(1), seq!['/'] + rest) == RewriteOutcomeView::Unchanged);
}

/// A `RedirectMatch` sends every path that its pattern is found in to its target, with
/// its status, and no other path.
pub proof fn redirects_go_by_pattern(r: RedirectView, path: Seq<char>)
    requires
        r.is_regex,
        !r.target.contains('$'),
    ensures
        first_redirect(seq![r], path) == (if is_found(r.pattern, path) {
            RewriteOutcomeView::Redirect(r.status, r.target)
        } else {
            RewriteOutcomeView::Unchanged
        }),
{
    let l = seq![r];
    assert(l[0] == r);
    assert(l.skip(1) =~= Seq::<RedirectView>::empty());
    assert(first_redirect(l.skip(1), path) == RewriteOutcomeView::Unchanged);
    if let Some(Some(g)) = regex_groups(r.pattern, path) {
        lemma_plain_template(r.target, g, 0);
        assert(r.target.skip(0) =~= r.target);
    }
}

/// A redirect is taken before any rule; without one the rules decide, where rewriting
/// is switched on; and otherwise the path stays.
pub proof fn redirects_then_rules(r: RulesView, s: Subject)
    ensures
        first_redirect(r.redirects, s.path) != RewriteOutcomeView::Unchanged ==> outcome(r, s)
            == first_redirect(r.redirects, s.path),
        r.redirects.len() == 0 && r.rewrite_engine ==> outcome(r, s) == first_rewrite(
            r.rewrite_rules,
            s,
        ),
        r.redirects.len() == 0 && !r.rewrite_engine ==> outcome(r, s)
            == RewriteOutcomeView::Unchanged,
{
}


/// A flag whose status is no number asks for the status 302.
pub proof fn odd_statuses_are_found(word: Seq<char>, code: u16)
    ensures
        crate::digits::number16(word) is None ==> crate::servers::rewrite::redirect_status(
            seq!["R="@ + word],
        ) == 302,
        crate::servers::rewrite::redirect_status(seq!["R="@ + crate::digits::decimal(code as int)])
            == code,
        crate::servers::rewrite::redirect_status(Seq::empty()) == 302,
{
    crate::laws::wording::lemma_prefixed("R="@, word);
    crate::laws::wording::lemma_prefixed("R="@, crate::digits::decimal(code as int));
    crate::laws::wording::numbers_read_back(code as int);
    assert(seq!["R="@ + word][0] == "R="@ + word);
    let n = seq!["R="@ + crate::digits::decimal(code as int)];
    assert(n[0] == "R="@ + crate::digits::decimal(code as int));
}

} // verus!
