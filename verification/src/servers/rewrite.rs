//! Redirects and rewrites of the request path.

use vstd::prelude::*;

use crate::digits::{number16, parse_u16};
use crate::outside::{regex_captures, regex_groups};
use crate::servers::htaccess::{
    contains_flag, has_flag, Redirect, RedirectView, RewriteCond, RewriteCondView, RewriteRule,
    RewriteRuleView, Rules, RulesView,
};
use crate::table::Table;
use crate::text::{
    chars_of, has_prefix, replace_all, replaced_all, starts_with, strip_prefix, trim_end,
    trim_end_of, trim_start, trim_start_of, without_prefix, Class,
};

verus! {

/// What redirects and rewrites make of a request path.
#[derive(Debug)]
pub enum RewriteOutcome {
    /// The path stays as it is.
    Unchanged,
    /// The request is for another path.
    Rewritten(String),
    /// The client is sent elsewhere, with this status and location.
    Redirect(u16, String),
}

/// `RewriteOutcome`, as a mathematical value.
pub enum RewriteOutcomeView {
    Unchanged,
    Rewritten(Seq<char>),
    Redirect(u16, Seq<char>),
}

impl View for RewriteOutcome {
    type V = RewriteOutcomeView;

    open spec fn view(&self) -> RewriteOutcomeView {
        match self {
            RewriteOutcome::Unchanged => RewriteOutcomeView::Unchanged,
            RewriteOutcome::Rewritten(p) => RewriteOutcomeView::Rewritten(p@),
            RewriteOutcome::Redirect(s, t) => RewriteOutcomeView::Redirect(*s, t@),
        }
    }
}

/// The texts of the groups of a match.
pub type Groups = Vec<Option<String>>;

// ---------------------------------------------------------------------------
// Templates
// ---------------------------------------------------------------------------

/// The text of group `n` of a match, or nothing.
pub open spec fn group_text(g: Seq<Option<Seq<char>>>, n: int) -> Seq<char> {
    if 0 <= n < g.len() {
        match g[n] {
            Some(t) => t,
            None => Seq::empty(),
        }
    } else {
        Seq::empty()
    }
}

/// A template from character `i` on, with each dollar sign and digit replaced by
/// the group of that number.
pub open spec fn filled(t: Seq<char>, g: Seq<Option<Seq<char>>>, i: int) -> Seq<char>
    decreases t.len() - i,
{
    if i >= t.len() {
        Seq::empty()
    } else if t[i] == '$' && i + 1 < t.len() && '0' <= t[i + 1] <= '9' {
        group_text(g, t[i + 1] as int - '0' as int) + filled(t, g, i + 2)
    } else {
        seq![t[i]] + filled(t, g, i + 1)
    }
}

/// A template with its back references filled in.
pub open spec fn backrefs(template: Seq<char>, g: Seq<Option<Seq<char>>>) -> Seq<char> {
    filled(template, g, 0)
}

/// A template with its back references filled in.
pub fn expand_backrefs(template: &str, g: &Groups) -> (r: String)
    ensures
        r@ == backrefs(template@, g.deep_view()),
{
    let t = chars_of(template);
    let n: usize = t.len();
    let ghost gs = g.deep_view();
    let ghost whole = filled(t@, gs, 0);
    let mut out = String::new();
    let mut i: usize = 0;
    assert(out@ + whole =~= whole);
    while i < n
        invariant
            i <= n,
            n == t@.len(),
            gs == g.deep_view(),
            out@ + filled(t@, gs, i as int) == whole,
        decreases n - i,
    {
        let ghost done = out@;
        if t[i] == '$' && i + 1 < n && '0' <= t[i + 1] && t[i + 1] <= '9' {
            let k: usize = (t[i + 1] as u32 - '0' as u32) as usize;
            if k < g.len() {
                assert(gs[k as int] == g@[k as int].deep_view());
                if let Some(text) = &g[k] {
                    out.append(text.as_str());
                }
            }
            let ghost piece = group_text(gs, k as int);
            assert(out@ =~= done + piece);
            assert(done + (piece + filled(t@, gs, i + 2)) =~= (done + piece) + filled(
                t@,
                gs,
                i + 2,
            ));
            i = i + 2;
        } else {
            let c: char = t[i];
            out.push(c);
            assert(done + (seq![c] + filled(t@, gs, i + 1)) =~= done.push(c) + filled(
                t@,
                gs,
                i + 1,
            ));
            i = i + 1;
        }
    }
    assert(out@ + Seq::<char>::empty() =~= out@);
    out
}

/// What a condition can ask of a request.
pub struct Subject {
    pub path: Seq<char>,
    pub query: Seq<char>,
    pub method: Seq<char>,
    pub remote: Seq<char>,
    pub headers: Map<Seq<char>, Seq<char>>,
}

/// The value of a header, or nothing.
pub open spec fn header_or_empty(h: Map<Seq<char>, Seq<char>>, k: Seq<char>) -> Seq<char> {
    if h.contains_key(k) {
        h[k]
    } else {
        ""@
    }
}

/// A template with the path, the query and the host filled in.
pub open spec fn vars(
    template: Seq<char>,
    path: Seq<char>,
    query: Seq<char>,
    headers: Map<Seq<char>, Seq<char>>,
) -> Seq<char> {
    replace_all(
        replace_all(
            replace_all(template, "%{REQUEST_URI}"@, path),
            "%{QUERY_STRING}"@,
            query,
        ),
        "%{HTTP_HOST}"@,
        header_or_empty(headers, "host"@),
    )
}

/// A template with the path, the query and the host filled in.
pub fn expand_vars(template: &str, path: &str, query: &str, headers: &Table<String>) -> (r: String)
    ensures
        r@ == vars(template@, path@, query@, headers@),
{
    proof {
        reveal_strlit("%{REQUEST_URI}");
        reveal_strlit("%{QUERY_STRING}");
        reveal_strlit("%{HTTP_HOST}");
    }
    let a = replaced_all(template, "%{REQUEST_URI}", path);
    let b = replaced_all(a.as_str(), "%{QUERY_STRING}", query);
    let host = headers.get_or("host", "");
    replaced_all(b.as_str(), "%{HTTP_HOST}", host.as_str())
}

/// What the test string of a condition stands for.
pub open spec fn tested(test: Seq<char>, s: Subject) -> Seq<char> {
    replace_all(
        replace_all(vars(test, s.path, s.query, s.headers), "%{REQUEST_METHOD}"@, s.method),
        "%{REMOTE_ADDR}"@,
        s.remote,
    )
}

// ---------------------------------------------------------------------------
// Patterns
// ---------------------------------------------------------------------------

/// A pattern, marked to match letters of either case where asked for.
pub open spec fn cased(pattern: Seq<char>, nocase: bool) -> Seq<char> {
    if nocase {
        "(?i)"@ + pattern
    } else {
        pattern
    }
}

fn cased_of(pattern: &str, nocase: bool) -> (r: String)
    ensures
        r@ == cased(pattern@, nocase),
{
    if nocase {
        let mut out = "(?i)".to_owned();
        out.append(pattern);
        out
    } else {
        pattern.to_owned()
    }
}

/// The groups that a match found, if the pattern compiled and matched.
pub open spec fn match_of<T>(found: Option<Option<T>>) -> Option<T> {
    match found {
        Some(m) => m,
        None => None,
    }
}

/// Whether a condition holds, given what its pattern found.
pub open spec fn cond_met(c: RewriteCondView, found: bool) -> bool {
    found != c.negate
}

/// Whether a condition holds for a request.
pub open spec fn cond_holds(c: RewriteCondView, s: Subject) -> bool {
    cond_met(c, match_of(regex_groups(cased(c.pattern, c.nocase), tested(c.test_string, s))) is Some)
}

/// Whether all conditions of a rule hold for a request.
pub open spec fn conds_hold(list: Seq<RewriteCondView>, s: Subject) -> bool {
    forall|i: int| 0 <= i < list.len() ==> cond_holds(#[trigger] list[i], s)
}

// ---------------------------------------------------------------------------
// Redirects
// ---------------------------------------------------------------------------

/// Where a `Redirect` sends a request for `path`, if it applies.
pub open spec fn prefix_target(r: RedirectView, path: Seq<char>) -> Option<Seq<char>> {
    if starts_with(trim_start(path, Class::One('/')), trim_start(r.pattern, Class::One('/'))) {
        Some(r.target)
    } else {
        None
    }
}

/// Where a `RedirectMatch` sends a request, given the groups it found.
pub open spec fn pattern_target(r: RedirectView, g: Option<Seq<Option<Seq<char>>>>) -> Option<Seq<char>> {
    match g {
        Some(gs) => Some(backrefs(r.target, gs)),
        None => None,
    }
}

/// Where a redirect sends a request for `path`, if it applies.
pub open spec fn redirect_target(r: RedirectView, path: Seq<char>) -> Option<Seq<char>> {
    if r.is_regex {
        pattern_target(r, match_of(regex_groups(r.pattern, path)))
    } else {
        prefix_target(r, path)
    }
}

/// Where a `RedirectMatch` sends a request, given the groups it found.
pub fn redirect_with(r: &Redirect, g: &Option<Groups>) -> (t: Option<String>)
    ensures
        t.deep_view() == pattern_target(r.deep_view(), g.deep_view()),
{
    match g {
        Some(gs) => Some(expand_backrefs(r.target.as_str(), gs)),
        None => None,
    }
}

fn redirect_for(r: &Redirect, path: &str) -> (t: Option<String>)
    ensures
        t.deep_view() == redirect_target(r.deep_view(), path@),
{
    if r.is_regex {
        let found = regex_captures(r.pattern.as_str(), path);
        let g = match found {
            Some(m) => m,
            None => None,
        };
        redirect_with(r, &g)
    } else {
        let rel = trim_start_of(path, Class::One('/'));
        let start = trim_start_of(r.pattern.as_str(), Class::One('/'));
        if has_prefix(rel.as_str(), start.as_str()) {
            Some(r.target.clone())
        } else {
            None
        }
    }
}

/// The first redirect of a list that applies.
pub open spec fn first_redirect(list: Seq<RedirectView>, path: Seq<char>) -> RewriteOutcomeView
    decreases list.len(),
{
    if list.len() == 0 {
        RewriteOutcomeView::Unchanged
    } else {
        match redirect_target(list[0], path) {
            Some(t) => RewriteOutcomeView::Redirect(list[0].status, t),
            None => first_redirect(list.skip(1), path),
        }
    }
}

// ---------------------------------------------------------------------------
// Rewrites
// ---------------------------------------------------------------------------

/// The part of a path that a rule's pattern is matched against: the path seen
/// from the directory of the rule's file.
pub open spec fn rule_subject(dir: Seq<char>, path: Seq<char>) -> Seq<char> {
    let rel = trim_start(path, Class::One('/'));
    if dir.len() == 0 {
        rel
    } else {
        match strip_prefix(rel, trim_end(dir, Class::One('/')) + "/"@) {
            Some(t) => t,
            None => rel,
        }
    }
}

/// The path that a rule's substitution stands for.
pub open spec fn new_path(dir: Seq<char>, substitution: Seq<char>) -> Seq<char> {
    if starts_with(substitution, "/"@) {
        substitution
    } else if dir.len() == 0 {
        "/"@ + substitution
    } else {
        "/"@ + trim_end(dir, Class::One('/')) + "/"@ + substitution
    }
}

/// Whether the flags of a rule ask for a redirect.
pub open spec fn asks_redirect(f: Seq<Seq<char>>) -> bool {
    exists|i: int| 0 <= i < f.len() && (#[trigger] f[i] == "R"@ || starts_with(f[i], "R="@))
}

/// What the first flag of the form `R=..` says.
pub open spec fn redirect_word(f: Seq<Seq<char>>) -> Option<Seq<char>>
    decreases f.len(),
{
    if f.len() == 0 {
        None
    } else {
        match strip_prefix(f[0], "R="@) {
            Some(t) => Some(t),
            None => redirect_word(f.skip(1)),
        }
    }
}

/// The status of a redirect that the flags of a rule ask for.
pub open spec fn redirect_status(f: Seq<Seq<char>>) -> u16 {
    match redirect_word(f) {
        Some(t) => match number16(t) {
            Some(code) => code,
            None => 302,
        },
        None => 302,
    }
}

/// What a rule that applies makes of a request, given the groups it found.
pub open spec fn rewritten(r: RewriteRuleView, g: Seq<Option<Seq<char>>>) -> RewriteOutcomeView {
    let p = new_path(r.dir, backrefs(r.substitution, g));
    if asks_redirect(r.flags) {
        RewriteOutcomeView::Redirect(redirect_status(r.flags), p)
    } else {
        RewriteOutcomeView::Rewritten(p)
    }
}

/// The groups that a rule finds in a path, if its pattern matches.
pub open spec fn rule_groups(r: RewriteRuleView, path: Seq<char>) -> Option<Seq<Option<Seq<char>>>> {
    match_of(
        regex_groups(cased(r.pattern, has_flag(r.flags, "NC"@)), rule_subject(r.dir, path)),
    )
}

/// What the first rule of a list that applies makes of a request.
pub open spec fn first_rewrite(list: Seq<RewriteRuleView>, s: Subject) -> RewriteOutcomeView
    decreases list.len(),
{
    if list.len() == 0 {
        RewriteOutcomeView::Unchanged
    } else {
        match rule_groups(list[0], s.path) {
            Some(g) => if conds_hold(list[0].conds, s) {
                rewritten(list[0], g)
            } else {
                first_rewrite(list.skip(1), s)
            },
            None => first_rewrite(list.skip(1), s),
        }
    }
}

/// What redirects and rewrites make of a request: the first redirect that
/// applies, or else, with rewriting switched on, the first rule that does.
pub open spec fn outcome(r: RulesView, s: Subject) -> RewriteOutcomeView {
    match first_redirect(r.redirects, s.path) {
        RewriteOutcomeView::Unchanged => if r.rewrite_engine {
            first_rewrite(r.rewrite_rules, s)
        } else {
            RewriteOutcomeView::Unchanged
        },
        o => o,
    }
}

fn subject_of(dir: &str, path: &str) -> (r: String)
    ensures
        r@ == rule_subject(dir@, path@),
{
    let rel = trim_start_of(path, Class::One('/'));
    if dir.is_empty() {
        return rel;
    }
    let mut prefix = trim_end_of(dir, Class::One('/'));
    prefix.append("/");
    match without_prefix(rel.as_str(), prefix.as_str()) {
        Some(t) => t,
        None => rel,
    }
}

fn new_path_of(dir: &str, substitution: &str) -> (r: String)
    ensures
        r@ == new_path(dir@, substitution@),
{
    if has_prefix(substitution, "/") {
        substitution.to_owned()
    } else if dir.is_empty() {
        let mut out = "/".to_owned();
        out.append(substitution);
        out
    } else {
        let mut out = "/".to_owned();
        let d = trim_end_of(dir, Class::One('/'));
        out.append(d.as_str());
        out.append("/");
        out.append(substitution);
        out
    }
}

fn asks_redirect_of(f: &Vec<String>) -> (r: bool)
    ensures
        r == asks_redirect(f.deep_view()),
{
    let ghost all = f.deep_view();
    let mut i: usize = 0;
    while i < f.len()
        invariant
            i <= f.len(),
            all == f.deep_view(),
            forall|j: int|
                0 <= j < i ==> !(#[trigger] all[j] == "R"@ || starts_with(all[j], "R="@)),
        decreases f.len() - i,
    {
        if f[i].as_str().eq("R") || has_prefix(f[i].as_str(), "R=") {
            assert(all[i as int] == "R"@ || starts_with(all[i as int], "R="@));
            return true;
        }
        i = i + 1;
    }
    false
}

fn redirect_status_of(f: &Vec<String>) -> (r: u16)
    ensures
        r == redirect_status(f.deep_view()),
{
    let ghost all = f.deep_view();
    let mut i: usize = 0;
    assert(all.skip(0) =~= all);
    while i < f.len()
        invariant
            i <= f.len(),
            all == f.deep_view(),
            redirect_word(all) == redirect_word(all.skip(i as int)),
        decreases f.len() - i,
    {
        assert(all.skip(i as int)[0] == f@[i as int]@);
        assert(all.skip(i as int).skip(1) =~= all.skip(i + 1));
        if let Some(t) = without_prefix(f[i].as_str(), "R=") {
            return match parse_u16(t.as_str()) {
                Some(code) => code,
                None => 302,
            };
        }
        i = i + 1;
    }
    302
}

/// What a rule that applies makes of a request, given the groups it found.
pub fn rewrite_with(r: &RewriteRule, g: &Groups) -> (o: RewriteOutcome)
    ensures
        o@ == rewritten(r.deep_view(), g.deep_view()),
{
    let substitution = expand_backrefs(r.substitution.as_str(), g);
    let p = new_path_of(r.dir.as_str(), substitution.as_str());
    if asks_redirect_of(&r.flags) {
        RewriteOutcome::Redirect(redirect_status_of(&r.flags), p)
    } else {
        RewriteOutcome::Rewritten(p)
    }
}

/// Whether a condition holds, given what its pattern found.
pub fn cond_with(c: &RewriteCond, found: &Option<Option<Groups>>) -> (r: bool)
    ensures
        r == cond_met(c.deep_view(), match_of(found.deep_view()) is Some),
{
    let hit = match found {
        Some(m) => m.is_some(),
        None => false,
    };
    hit != c.negate
}

fn conds_hold_for(
    list: &Vec<RewriteCond>,
    path: &str,
    query: &str,
    method: &str,
    remote: &str,
    headers: &Table<String>,
) -> (r: bool)
    ensures
        r == conds_hold(
            list.deep_view(),
            Subject {
                path: path@,
                query: query@,
                method: method@,
                remote: remote@,
                headers: headers@,
            },
        ),
{
    let ghost s = Subject {
        path: path@,
        query: query@,
        method: method@,
        remote: remote@,
        headers: headers@,
    };
    let ghost all = list.deep_view();
    let mut i: usize = 0;
    while i < list.len()
        invariant
            i <= list.len(),
            all == list.deep_view(),
            s == (Subject {
                path: path@,
                query: query@,
                method: method@,
                remote: remote@,
                headers: headers@,
            }),
            forall|j: int| 0 <= j < i ==> cond_holds(#[trigger] all[j], s),
        decreases list.len() - i,
    {
        proof {
            reveal_strlit("%{REQUEST_METHOD}");
            reveal_strlit("%{REMOTE_ADDR}");
        }
        assert(all[i as int] == list@[i as int].deep_view());
        let a = expand_vars(list[i].test_string.as_str(), path, query, headers);
        let b = replaced_all(a.as_str(), "%{REQUEST_METHOD}", method);
        let text = replaced_all(b.as_str(), "%{REMOTE_ADDR}", remote);
        let pattern = cased_of(list[i].pattern.as_str(), list[i].nocase);
        let found = regex_captures(pattern.as_str(), text.as_str());
        if !cond_with(&list[i], &found) {
            assert(!cond_holds(all[i as int], s));
            return false;
        }
        i = i + 1;
    }
    true
}

/// What redirects and rewrites make of a request for `path` (decoded, with its
/// leading slash and without its query).
pub fn apply_rewrites(
    rules: &Rules,
    path: &str,
    query: &str,
    method: &str,
    remote_addr: &str,
    headers: &Table<String>,
) -> (r: RewriteOutcome)
    ensures
        r@ == outcome(
            rules@,
            Subject {
                path: path@,
                query: query@,
                method: method@,
                remote: remote_addr@,
                headers: headers@,
            },
        ),
{
    let ghost s = Subject {
        path: path@,
        query: query@,
        method: method@,
        remote: remote_addr@,
        headers: headers@,
    };
    let ghost reds = rules@.redirects;
    let mut i: usize = 0;
    assert(reds.skip(0) =~= reds);
    while i < rules.redirects.len()
        invariant
            i <= rules.redirects.len(),
            reds == rules@.redirects,
            s.path == path@,
            first_redirect(reds, path@) == first_redirect(reds.skip(i as int), path@),
        decreases rules.redirects.len() - i,
    {
        assert(reds.skip(i as int)[0] == rules.redirects@[i as int].deep_view());
        assert(reds.skip(i as int).skip(1) =~= reds.skip(i + 1));
        if let Some(target) = redirect_for(&rules.redirects[i], path) {
            return RewriteOutcome::Redirect(rules.redirects[i].status, target);
        }
        i = i + 1;
    }
    if !rules.rewrite_engine {
        return RewriteOutcome::Unchanged;
    }
    let ghost list = rules@.rewrite_rules;
    let mut k: usize = 0;
    assert(list.skip(0) =~= list);
    while k < rules.rewrite_rules.len()
        invariant
            k <= rules.rewrite_rules.len(),
            list == rules@.rewrite_rules,
            s == (Subject {
                path: path@,
                query: query@,
                method: method@,
                remote: remote_addr@,
                headers: headers@,
            }),
            rules@.rewrite_engine,
            first_redirect(rules@.redirects, path@) == RewriteOutcomeView::Unchanged,
            first_rewrite(list, s) == first_rewrite(list.skip(k as int), s),
        decreases rules.rewrite_rules.len() - k,
    {
        let rule = &rules.rewrite_rules[k];
        assert(list.skip(k as int)[0] == rule.deep_view());
        assert(list.skip(k as int).skip(1) =~= list.skip(k + 1));
        let subject = subject_of(rule.dir.as_str(), path);
        let nocase = contains_flag(&rule.flags, "NC");
        let pattern = cased_of(rule.pattern.as_str(), nocase);
        if let Some(Some(g)) = regex_captures(pattern.as_str(), subject.as_str()) {
            if conds_hold_for(&rule.conds, path, query, method, remote_addr, headers) {
                return rewrite_with(rule, &g);
            }
        }
        k = k + 1;
    }
    RewriteOutcome::Unchanged
}

// ---------------------------------------------------------------------------
// Laws
// ---------------------------------------------------------------------------

/// Directives without a redirect, and with rewriting switched off or no rule,
/// leave every path as it is.
pub proof fn nothing_to_rewrite(r: RulesView, s: Subject)
    requires
        r.redirects.len() == 0,
        !r.rewrite_engine || r.rewrite_rules.len() == 0,
    ensures
        outcome(r, s) == RewriteOutcomeView::Unchanged,
{
}

/// A path that a rule produces starts with a slash.
pub proof fn new_paths_are_rooted(dir: Seq<char>, substitution: Seq<char>)
    ensures
        new_path(dir, substitution).len() > 0,
        new_path(dir, substitution)[0] == '/',
{
    reveal_strlit("/");
    if starts_with(substitution, "/"@) {
        assert(substitution.subrange(0, 1)[0] == "/"@[0]);
    }
}

/// A redirect that applies is taken whatever the rewrite rules say, and the
/// rules are not consulted while rewriting is switched off.
pub proof fn redirects_come_first(r: RulesView, q: RulesView, s: Subject)
    requires
        r.redirects == q.redirects,
        first_redirect(r.redirects, s.path) != RewriteOutcomeView::Unchanged || (!r.rewrite_engine
            && !q.rewrite_engine),
    ensures
        outcome(r, s) == outcome(q, s),
{
}

} // verus!
