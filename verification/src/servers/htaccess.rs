//! Per-directory configuration: the directives of `.htaccess` files, how those
//! of nested directories are layered, and what they decide for a request.

use vstd::prelude::*;

use crate::digits::{number16, parse_u16};
use crate::net::{address, IpAddr};
use crate::paths::{join_path, under_dir};
use crate::text::{
    copy_strings, eq_ignore_case, has_prefix, join, joined, lines, lower, lowered, same_letters,
    split, split_at_char, split_lines, split_once, split_once_at, split_words, starts_with, trim,
    trim_end, trim_end_of, trim_start, trim_start_of, trimmed, without_prefix, words, Class,
};

verus! {

// ---------------------------------------------------------------------------
// Directives
// ---------------------------------------------------------------------------

/// Which of `Allow` and `Deny` has the last word.
#[derive(Debug, Clone, Copy, PartialEq, Eq, Structural)]
pub enum Order {
    AllowDeny,
    DenyAllow,
}

/// Which clients an `Allow` or `Deny` names.
#[derive(Debug, Clone, Copy, PartialEq, Eq, Structural)]
pub enum AccessRule {
    All,
    Ip(IpAddr),
    Cidr(IpAddr, u8),
    /// A host name. It is accepted, but no client matches it: addresses are not
    /// looked up.
    Host,
}

/// Which users a `Require` names.
#[derive(Debug, Clone)]
pub enum Require {
    ValidUser,
    User(Vec<String>),
    Group(Vec<String>),
}

/// `Require`, as a mathematical value.
pub enum RequireView {
    ValidUser,
    User(Seq<Seq<char>>),
    Group(Seq<Seq<char>>),
}

impl DeepView for Require {
    type V = RequireView;

    open spec fn deep_view(&self) -> RequireView {
        match self {
            Require::ValidUser => RequireView::ValidUser,
            Require::User(names) => RequireView::User(names.deep_view()),
            Require::Group(names) => RequireView::Group(names.deep_view()),
        }
    }
}

/// A condition of a rewrite rule.
#[derive(Debug, Clone)]
pub struct RewriteCond {
    pub test_string: String,
    pub pattern: String,
    pub negate: bool,
    pub nocase: bool,
}

/// `RewriteCond`, as a mathematical value.
pub struct RewriteCondView {
    pub test_string: Seq<char>,
    pub pattern: Seq<char>,
    pub negate: bool,
    pub nocase: bool,
}

impl DeepView for RewriteCond {
    type V = RewriteCondView;

    open spec fn deep_view(&self) -> RewriteCondView {
        RewriteCondView {
            test_string: self.test_string@,
            pattern: self.pattern@,
            negate: self.negate,
            nocase: self.nocase,
        }
    }
}

/// A rewrite rule, with the directory (seen from the served one) that its file
/// stands in.
#[derive(Debug, Clone)]
pub struct RewriteRule {
    pub pattern: String,
    pub substitution: String,
    pub flags: Vec<String>,
    pub conds: Vec<RewriteCond>,
    pub dir: String,
}

/// `RewriteRule`, as a mathematical value.
pub struct RewriteRuleView {
    pub pattern: Seq<char>,
    pub substitution: Seq<char>,
    pub flags: Seq<Seq<char>>,
    pub conds: Seq<RewriteCondView>,
    pub dir: Seq<char>,
}

impl DeepView for RewriteRule {
    type V = RewriteRuleView;

    open spec fn deep_view(&self) -> RewriteRuleView {
        RewriteRuleView {
            pattern: self.pattern@,
            substitution: self.substitution@,
            flags: self.flags.deep_view(),
            conds: self.conds.deep_view(),
            dir: self.dir@,
        }
    }
}

/// A `Redirect` (by the start of the path) or `RedirectMatch` (by a pattern).
#[derive(Debug, Clone)]
pub struct Redirect {
    pub is_regex: bool,
    pub status: u16,
    pub pattern: String,
    pub target: String,
}

/// `Redirect`, as a mathematical value.
pub struct RedirectView {
    pub is_regex: bool,
    pub status: u16,
    pub pattern: Seq<char>,
    pub target: Seq<char>,
}

impl DeepView for Redirect {
    type V = RedirectView;

    open spec fn deep_view(&self) -> RedirectView {
        RedirectView {
            is_regex: self.is_regex,
            status: self.status,
            pattern: self.pattern@,
            target: self.target@,
        }
    }
}

impl DeepView for AccessRule {
    type V = AccessRule;

    open spec fn deep_view(&self) -> AccessRule {
        *self
    }
}

/// The directives in force for a directory: those of every file from the served
/// directory down to it.
#[derive(Debug, Clone)]
pub struct Rules {
    pub auth_type: Option<String>,
    pub auth_name: Option<String>,
    pub auth_user_file: Option<String>,
    pub auth_group_file: Option<String>,
    pub requires: Vec<Require>,
    pub order: Option<Order>,
    pub allow: Vec<AccessRule>,
    pub deny: Vec<AccessRule>,
    /// The target of each status; of two for one status the later counts.
    pub error_documents: Vec<(u16, String)>,
    pub directory_index: Option<Vec<String>>,
    pub indexes: Option<bool>,
    pub follow_symlinks: Option<bool>,
    pub rewrite_engine: bool,
    pub rewrite_rules: Vec<RewriteRule>,
    pub redirects: Vec<Redirect>,
}

/// `Rules`, as a mathematical value.
pub struct RulesView {
    pub auth_type: Option<Seq<char>>,
    pub auth_name: Option<Seq<char>>,
    pub auth_user_file: Option<Seq<char>>,
    pub auth_group_file: Option<Seq<char>>,
    pub requires: Seq<RequireView>,
    pub order: Option<Order>,
    pub allow: Seq<AccessRule>,
    pub deny: Seq<AccessRule>,
    pub error_documents: Seq<(u16, Seq<char>)>,
    pub directory_index: Option<Seq<Seq<char>>>,
    pub indexes: Option<bool>,
    pub follow_symlinks: Option<bool>,
    pub rewrite_engine: bool,
    pub rewrite_rules: Seq<RewriteRuleView>,
    pub redirects: Seq<RedirectView>,
}

impl View for Rules {
    type V = RulesView;

    open spec fn view(&self) -> RulesView {
        RulesView {
            auth_type: self.auth_type.deep_view(),
            auth_name: self.auth_name.deep_view(),
            auth_user_file: self.auth_user_file.deep_view(),
            auth_group_file: self.auth_group_file.deep_view(),
            requires: self.requires.deep_view(),
            order: self.order,
            allow: self.allow@,
            deny: self.deny@,
            error_documents: self.error_documents.deep_view(),
            directory_index: self.directory_index.deep_view(),
            indexes: self.indexes,
            follow_symlinks: self.follow_symlinks,
            rewrite_engine: self.rewrite_engine,
            rewrite_rules: self.rewrite_rules.deep_view(),
            redirects: self.redirects.deep_view(),
        }
    }
}

/// No directive at all.
pub open spec fn no_rules() -> RulesView {
    RulesView {
        auth_type: None,
        auth_name: None,
        auth_user_file: None,
        auth_group_file: None,
        requires: Seq::empty(),
        order: None,
        allow: Seq::empty(),
        deny: Seq::empty(),
        error_documents: Seq::empty(),
        directory_index: None,
        indexes: None,
        follow_symlinks: None,
        rewrite_engine: false,
        rewrite_rules: Seq::empty(),
        redirects: Seq::empty(),
    }
}

impl Default for Rules {
    fn default() -> (r: Self)
        ensures
            r@ == no_rules(),
    {
        let r = Rules {
            auth_type: None,
            auth_name: None,
            auth_user_file: None,
            auth_group_file: None,
            requires: Vec::new(),
            order: None,
            allow: Vec::new(),
            deny: Vec::new(),
            error_documents: Vec::new(),
            directory_index: None,
            indexes: None,
            follow_symlinks: None,
            rewrite_engine: false,
            rewrite_rules: Vec::new(),
            redirects: Vec::new(),
        };
        assert(r@.requires =~= Seq::empty());
        assert(r@.error_documents =~= Seq::empty());
        assert(r@.rewrite_rules =~= Seq::empty());
        assert(r@.redirects =~= Seq::empty());
        r
    }
}

// ---------------------------------------------------------------------------
// Reading one file
// ---------------------------------------------------------------------------

/// The status that a word of a `Redirect` stands for.
pub open spec fn keyword_status(word: Seq<char>) -> Option<u16> {
    let w = lower(word);
    if w == "permanent"@ {
        Some(301)
    } else if w == "temp"@ {
        Some(302)
    } else if w == "seeother"@ {
        Some(303)
    } else if w == "gone"@ {
        Some(410)
    } else {
        None
    }
}

/// The status that a word of a `Redirect` stands for.
pub fn status_from_keyword(word: &str) -> (r: Option<u16>)
    ensures
        r == keyword_status(word@),
{
    let w = lowered(word);
    let w = w.as_str();
    if w.eq("permanent") {
        Some(301)
    } else if w.eq("temp") {
        Some(302)
    } else if w.eq("seeother") {
        Some(303)
    } else if w.eq("gone") {
        Some(410)
    } else {
        None
    }
}

/// The pieces of a list that are not empty.
pub open spec fn nonempty(pieces: Seq<Seq<char>>) -> Seq<Seq<char>> {
    pieces.filter(|p: Seq<char>| p.len() > 0)
}

/// The flags in square brackets after a rule.
pub open spec fn flags(raw: Seq<char>) -> Seq<Seq<char>> {
    nonempty(split(trim_end(trim_start(raw, Class::One('[')), Class::One(']')), ','))
}

/// Leaves the empty pieces out.
pub fn drop_empty(pieces: Vec<String>) -> (r: Vec<String>)
    ensures
        r.deep_view() == nonempty(pieces.deep_view()),
{
    let ghost all = pieces.deep_view();
    let ghost keep = |p: Seq<char>| p.len() > 0;
    let mut out: Vec<String> = Vec::new();
    let mut i: usize = 0;
    proof {
        assert(all.take(0) =~= Seq::<Seq<char>>::empty());
        assert(out.deep_view() =~= all.take(0).filter(keep)) by {
            reveal(Seq::filter);
        }
    }
    while i < pieces.len()
        invariant
            i <= pieces.len(),
            all == pieces.deep_view(),
            keep == (|p: Seq<char>| p.len() > 0),
            out.deep_view() == all.take(i as int).filter(keep),
        decreases pieces.len() - i,
    {
        let ghost before = out.deep_view();
        proof {
            assert(all.take(i + 1) =~= all.take(i as int).push(all[i as int]));
            all.take(i as int).lemma_filter_push(all[i as int], keep);
        }
        if !pieces[i].as_str().is_empty() {
            out.push(pieces[i].clone());
            assert(out.deep_view() =~= before.push(all[i as int]));
        }
        i = i + 1;
    }
    assert(all.take(all.len() as int) =~= all);
    out
}

/// The flags in square brackets after a rule.
pub fn parse_flags(raw: &str) -> (r: Vec<String>)
    ensures
        r.deep_view() == flags(raw@),
{
    let open = trim_start_of(raw, Class::One('['));
    let inner = trim_end_of(open.as_str(), Class::One(']'));
    drop_empty(split_at_char(inner.as_str(), ','))
}

/// Whether a list holds a word, up to the case of its letters.
pub open spec fn has_flag(list: Seq<Seq<char>>, word: Seq<char>) -> bool {
    exists|i: int| 0 <= i < list.len() && same_letters(#[trigger] list[i], word)
}

/// Whether a list holds a word, up to the case of its letters.
pub fn contains_flag(list: &Vec<String>, word: &str) -> (r: bool)
    ensures
        r == has_flag(list.deep_view(), word@),
{
    let mut i: usize = 0;
    while i < list.len()
        invariant
            i <= list.len(),
            forall|j: int|
                0 <= j < i ==> !same_letters(#[trigger] list.deep_view()[j], word@),
        decreases list.len() - i,
    {
        if eq_ignore_case(list[i].as_str(), word) {
            assert(same_letters(list.deep_view()[i as int], word@));
            return true;
        }
        i = i + 1;
    }
    false
}

/// The clients that one word of an `Allow` or `Deny` names.
pub open spec fn source(tok: Seq<char>) -> AccessRule {
    if same_letters(tok, "all"@) {
        AccessRule::All
    } else {
        let network = match split_once(tok, '/') {
            Some(p) => match (address(p.0), crate::digits::number(p.1, 10, 255)) {
                (Some(ip), Some(bits)) => Some(AccessRule::Cidr(ip, bits as u8)),
                _ => None,
            },
            None => None,
        };
        match network {
            Some(rule) => rule,
            None => match address(tok) {
                Some(ip) => AccessRule::Ip(ip),
                None => AccessRule::Host,
            },
        }
    }
}

/// The clients that one word of an `Allow` or `Deny` names.
pub fn parse_source(tok: &str) -> (r: AccessRule)
    ensures
        r == source(tok@),
{
    if eq_ignore_case(tok, "all") {
        return AccessRule::All;
    }
    if let Some(p) = split_once_at(tok, '/') {
        let ip = IpAddr::parse(p.0.as_str());
        let bits = crate::digits::parse_number(p.1.as_str(), 10, 255);
        match (ip, bits) {
            (Some(ip), Some(bits)) => {
                return AccessRule::Cidr(ip, bits as u8);
            },
            _ => {},
        }
    }
    match IpAddr::parse(tok) {
        Some(ip) => AccessRule::Ip(ip),
        None => AccessRule::Host,
    }
}

/// The clients that the words of an `Allow` or `Deny` name; `from` is skipped.
pub open spec fn sources(rest: Seq<Seq<char>>) -> Seq<AccessRule>
    decreases rest.len(),
{
    if rest.len() == 0 {
        Seq::empty()
    } else {
        let front = sources(rest.drop_last());
        if same_letters(rest.last(), "from"@) {
            front
        } else {
            front.push(source(rest.last()))
        }
    }
}

/// Adds the clients that the words of an `Allow` or `Deny` name.
pub fn parse_access(rest: &Vec<String>, out: &mut Vec<AccessRule>)
    ensures
        final(out)@ == old(out)@ + sources(rest.deep_view()),
{
    let ghost start = out@;
    let ghost all = rest.deep_view();
    let mut i: usize = 0;
    assert(all.take(0) =~= Seq::<Seq<char>>::empty());
    assert(start + Seq::<AccessRule>::empty() =~= start);
    while i < rest.len()
        invariant
            i <= rest.len(),
            all == rest.deep_view(),
            out@ == start + sources(all.take(i as int)),
        decreases rest.len() - i,
    {
        assert(all.take(i + 1).drop_last() =~= all.take(i as int));
        assert(all.take(i + 1).last() == rest@[i as int]@);
        if !eq_ignore_case(rest[i].as_str(), "from") {
            let rule = parse_source(rest[i].as_str());
            out.push(rule);
            assert((start + sources(all.take(i as int))).push(rule) =~= start + sources(
                all.take(i as int),
            ).push(rule));
        }
        i = i + 1;
    }
    assert(all.take(all.len() as int) =~= all);
}

/// What reading keeps from line to line: the directives so far, and the
/// conditions that wait for their rule.
pub struct Progress {
    pub rules: RulesView,
    pub conds: Seq<RewriteCondView>,
}

/// The effect of `Require` with the words `rest`.
pub open spec fn on_require(r: RulesView, rest: Seq<Seq<char>>) -> RulesView {
    if rest.len() == 0 {
        r
    } else if rest[0] == "valid-user"@ {
        RulesView { requires: r.requires.push(RequireView::ValidUser), ..r }
    } else if rest[0] == "user"@ {
        RulesView { requires: r.requires.push(RequireView::User(rest.skip(1))), ..r }
    } else if rest[0] == "group"@ {
        RulesView { requires: r.requires.push(RequireView::Group(rest.skip(1))), ..r }
    } else {
        r
    }
}

/// The effect of `Order` with the words `rest`.
pub open spec fn on_order(r: RulesView, rest: Seq<Seq<char>>) -> RulesView {
    if rest.len() == 0 {
        r
    } else if lower(rest[0]) == "allow,deny"@ {
        RulesView { order: Some(Order::AllowDeny), ..r }
    } else if lower(rest[0]) == "deny,allow"@ {
        RulesView { order: Some(Order::DenyAllow), ..r }
    } else {
        r
    }
}

/// The effect of `ErrorDocument` with the words `rest`.
pub open spec fn on_error_document(r: RulesView, rest: Seq<Seq<char>>) -> RulesView {
    if rest.len() < 2 {
        r
    } else {
        match number16(rest[0]) {
            Some(code) => RulesView {
                error_documents: r.error_documents.push((code, join(rest.skip(1), " "@))),
                ..r
            },
            None => r,
        }
    }
}

/// The effect of one word of `Options`.
pub open spec fn on_option(r: RulesView, w: Seq<char>) -> RulesView {
    if w == "Indexes"@ || w == "+Indexes"@ {
        RulesView { indexes: Some(true), ..r }
    } else if w == "-Indexes"@ {
        RulesView { indexes: Some(false), ..r }
    } else if w == "FollowSymLinks"@ || w == "+FollowSymLinks"@ {
        RulesView { follow_symlinks: Some(true), ..r }
    } else if w == "-FollowSymLinks"@ {
        RulesView { follow_symlinks: Some(false), ..r }
    } else {
        r
    }
}

/// The effect of `Options` with the words `rest`.
pub open spec fn on_options(r: RulesView, rest: Seq<Seq<char>>) -> RulesView
    decreases rest.len(),
{
    if rest.len() == 0 {
        r
    } else {
        on_option(on_options(r, rest.drop_last()), rest.last())
    }
}

/// The flags that stand as the third word, if there is one.
pub open spec fn third_flags(rest: Seq<Seq<char>>) -> Seq<Seq<char>> {
    if rest.len() > 2 {
        flags(rest[2])
    } else {
        Seq::empty()
    }
}

/// The condition that `RewriteCond` with the words `rest` states.
pub open spec fn cond(rest: Seq<Seq<char>>) -> RewriteCondView {
    let negate = starts_with(rest[1], "!"@);
    RewriteCondView {
        test_string: rest[0],
        pattern: if negate {
            rest[1].skip("!"@.len() as int)
        } else {
            rest[1]
        },
        negate,
        nocase: has_flag(third_flags(rest), "NC"@),
    }
}

/// The effect of `Redirect` or `RedirectMatch` with the words `rest`: an
/// optional status, as a number or a word, then the path and the target.
pub open spec fn on_redirect(r: RulesView, is_regex: bool, rest: Seq<Seq<char>>) -> RulesView {
    let given = if rest.len() == 0 {
        None
    } else {
        match number16(rest[0]) {
            Some(code) => Some(code),
            None => keyword_status(rest[0]),
        }
    };
    let (status, at) = match given {
        Some(code) => (code, 1int),
        None => (302u16, 0int),
    };
    if rest.len() > at + 1 {
        RulesView {
            redirects: r.redirects.push(
                RedirectView { is_regex, status, pattern: rest[at], target: rest[at + 1] },
            ),
            ..r
        }
    } else {
        r
    }
}

/// The first of a list of words, if there is one.
pub open spec fn first(rest: Seq<Seq<char>>) -> Option<Seq<char>> {
    if rest.len() > 0 {
        Some(rest[0])
    } else {
        None
    }
}

/// The path that the first word names, seen from the file's directory.
pub open spec fn first_path(rest: Seq<Seq<char>>, dir: Seq<char>) -> Option<Seq<char>> {
    match first(rest) {
        Some(p) => Some(under_dir(dir, p)),
        None => None,
    }
}

/// The effect of the directives that are not part of a rewrite rule.
pub open spec fn on_plain(r: RulesView, d: Seq<char>, rest: Seq<Seq<char>>, dir: Seq<char>) -> RulesView {
    if d == "AuthType"@ {
        RulesView { auth_type: first(rest), ..r }
    } else if d == "AuthName"@ {
        RulesView {
            auth_name: Some(
                trim_end(trim_start(join(rest, " "@), Class::One('"')), Class::One('"')),
            ),
            ..r
        }
    } else if d == "AuthUserFile"@ {
        RulesView { auth_user_file: first_path(rest, dir), ..r }
    } else if d == "AuthGroupFile"@ {
        RulesView { auth_group_file: first_path(rest, dir), ..r }
    } else if d == "Require"@ {
        on_require(r, rest)
    } else if d == "Order"@ {
        on_order(r, rest)
    } else if d == "Allow"@ {
        RulesView { allow: r.allow + sources(rest), ..r }
    } else if d == "Deny"@ {
        RulesView { deny: r.deny + sources(rest), ..r }
    } else if d == "ErrorDocument"@ {
        on_error_document(r, rest)
    } else if d == "DirectoryIndex"@ {
        if rest.len() > 0 {
            RulesView { directory_index: Some(rest), ..r }
        } else {
            r
        }
    } else if d == "Options"@ {
        on_options(r, rest)
    } else if d == "RewriteEngine"@ {
        RulesView { rewrite_engine: rest.len() > 0 && same_letters(rest[0], "on"@), ..r }
    } else if d == "Redirect"@ {
        on_redirect(r, false, rest)
    } else if d == "RedirectMatch"@ {
        on_redirect(r, true, rest)
    } else {
        r
    }
}

/// The effect of the directive `d` with the words `rest`. A directive that is
/// not known has none.
pub open spec fn on_directive(
    p: Progress,
    d: Seq<char>,
    rest: Seq<Seq<char>>,
    rel_dir: Seq<char>,
    dir: Seq<char>,
) -> Progress {
    if d == "RewriteCond"@ {
        if rest.len() >= 2 {
            Progress { conds: p.conds.push(cond(rest)), ..p }
        } else {
            p
        }
    } else if d == "RewriteRule"@ {
        if rest.len() >= 2 {
            Progress {
                rules: RulesView {
                    rewrite_rules: p.rules.rewrite_rules.push(
                        RewriteRuleView {
                            pattern: rest[0],
                            substitution: rest[1],
                            flags: third_flags(rest),
                            conds: p.conds,
                            dir: rel_dir,
                        },
                    ),
                    ..p.rules
                },
                conds: Seq::empty(),
            }
        } else {
            p
        }
    } else {
        Progress { rules: on_plain(p.rules, d, rest, dir), ..p }
    }
}

/// The effect of one line. Blank lines and comments have none.
pub open spec fn on_line(p: Progress, line: Seq<char>, rel_dir: Seq<char>, dir: Seq<char>) -> Progress {
    let t = trim(line);
    let w = words(t);
    if t.len() == 0 || starts_with(t, "#"@) || w.len() == 0 {
        p
    } else {
        on_directive(p, w[0], w.skip(1), rel_dir, dir)
    }
}

/// What has been read after the given lines.
pub open spec fn on_lines(file: Seq<Seq<char>>, rel_dir: Seq<char>, dir: Seq<char>) -> Progress
    decreases file.len(),
{
    if file.len() == 0 {
        Progress { rules: no_rules(), conds: Seq::empty() }
    } else {
        on_line(on_lines(file.drop_last(), rel_dir, dir), file.last(), rel_dir, dir)
    }
}

/// The directives of a file with the text `text`, which stands in `dir`; seen
/// from the served directory that is `rel_dir`.
pub open spec fn parsed(text: Seq<char>, rel_dir: Seq<char>, dir: Seq<char>) -> RulesView {
    on_lines(lines(text), rel_dir, dir).rules
}

/// The words after the first.
fn tail(w: &Vec<String>) -> (r: Vec<String>)
    requires
        w.len() > 0,
    ensures
        r.deep_view() == w.deep_view().skip(1),
{
    let mut out: Vec<String> = Vec::new();
    let mut i: usize = 1;
    let ghost all = w.deep_view();
    assert(out.deep_view() =~= all.subrange(1, 1));
    while i < w.len()
        invariant
            1 <= i <= w.len(),
            all == w.deep_view(),
            out.deep_view() == all.subrange(1, i as int),
        decreases w.len() - i,
    {
        let ghost before = out.deep_view();
        out.push(w[i].clone());
        assert(out.deep_view() =~= before.push(all[i as int]));
        assert(all.subrange(1, i + 1) =~= all.subrange(1, i as int).push(all[i as int]));
        i = i + 1;
    }
    assert(all.subrange(1, all.len() as int) =~= all.skip(1));
    out
}

fn first_of(rest: &Vec<String>) -> (r: Option<String>)
    ensures
        r.deep_view() == first(rest.deep_view()),
{
    if rest.len() > 0 {
        assert(rest.deep_view()[0] == rest@[0]@);
        Some(rest[0].clone())
    } else {
        None
    }
}

/// A path that a file names, seen from the directory that it stands in.
pub fn resolve_htaccess_path(raw: &str, dir: &str) -> (r: String)
    ensures
        r@ == under_dir(dir@, raw@),
{
    join_path(dir, raw)
}

fn first_path_of(rest: &Vec<String>, dir: &str) -> (r: Option<String>)
    ensures
        r.deep_view() == first_path(rest.deep_view(), dir@),
{
    match first_of(rest) {
        Some(p) => Some(resolve_htaccess_path(p.as_str(), dir)),
        None => None,
    }
}

fn apply_require(r: &mut Rules, rest: &Vec<String>)
    ensures
        final(r)@ == on_require(old(r)@, rest.deep_view()),
{
    let ghost before = r@.requires;
    if rest.len() > 0 {
        let ghost all = rest.deep_view();
        assert(all[0] == rest@[0]@);
        let kind = rest[0].as_str();
        if kind.eq("valid-user") {
            r.requires.push(Require::ValidUser);
            assert(r@.requires =~= before.push(RequireView::ValidUser));
        } else if kind.eq("user") {
            r.requires.push(Require::User(tail(rest)));
            assert(r@.requires =~= before.push(RequireView::User(all.skip(1))));
        } else if kind.eq("group") {
            r.requires.push(Require::Group(tail(rest)));
            assert(r@.requires =~= before.push(RequireView::Group(all.skip(1))));
        }
    }
}

fn apply_order(r: &mut Rules, rest: &Vec<String>)
    ensures
        final(r)@ == on_order(old(r)@, rest.deep_view()),
{
    if rest.len() > 0 {
        assert(rest.deep_view()[0] == rest@[0]@);
        let v = lowered(rest[0].as_str());
        if v.as_str().eq("allow,deny") {
            r.order = Some(Order::AllowDeny);
        } else if v.as_str().eq("deny,allow") {
            r.order = Some(Order::DenyAllow);
        }
    }
}

fn apply_error_document(r: &mut Rules, rest: &Vec<String>)
    ensures
        final(r)@ == on_error_document(old(r)@, rest.deep_view()),
{
    if rest.len() >= 2 {
        let ghost before = r@.error_documents;
        let ghost all = rest.deep_view();
        assert(all[0] == rest@[0]@);
        if let Some(code) = parse_u16(rest[0].as_str()) {
            let target = joined(rest, 1, rest.len(), " ");
            assert(all.subrange(1, all.len() as int) =~= all.skip(1));
            r.error_documents.push((code, target));
            assert(r@.error_documents =~= before.push((code, join(all.skip(1), " "@))));
        }
    }
}

fn apply_options(r: &mut Rules, rest: &Vec<String>)
    ensures
        final(r)@ == on_options(old(r)@, rest.deep_view()),
{
    let ghost start = r@;
    let ghost all = rest.deep_view();
    let mut i: usize = 0;
    assert(all.take(0) =~= Seq::<Seq<char>>::empty());
    while i < rest.len()
        invariant
            i <= rest.len(),
            all == rest.deep_view(),
            r@ == on_options(start, all.take(i as int)),
        decreases rest.len() - i,
    {
        assert(all.take(i + 1).drop_last() =~= all.take(i as int));
        assert(all.take(i + 1).last() == rest@[i as int]@);
        let w = rest[i].as_str();
        if w.eq("Indexes") || w.eq("+Indexes") {
            r.indexes = Some(true);
        } else if w.eq("-Indexes") {
            r.indexes = Some(false);
        } else if w.eq("FollowSymLinks") || w.eq("+FollowSymLinks") {
            r.follow_symlinks = Some(true);
        } else if w.eq("-FollowSymLinks") {
            r.follow_symlinks = Some(false);
        }
        i = i + 1;
    }
    assert(all.take(all.len() as int) =~= all);
}

fn third_flags_of(rest: &Vec<String>) -> (r: Vec<String>)
    ensures
        r.deep_view() == third_flags(rest.deep_view()),
{
    if rest.len() > 2 {
        assert(rest.deep_view()[2] == rest@[2]@);
        parse_flags(rest[2].as_str())
    } else {
        let out: Vec<String> = Vec::new();
        assert(out.deep_view() =~= Seq::empty());
        out
    }
}

fn cond_of(rest: &Vec<String>) -> (r: RewriteCond)
    requires
        rest.len() >= 2,
    ensures
        r.deep_view() == cond(rest.deep_view()),
{
    let ghost all = rest.deep_view();
    assert(all[0] == rest@[0]@ && all[1] == rest@[1]@);
    let list = third_flags_of(rest);
    let nocase = contains_flag(&list, "NC");
    match without_prefix(rest[1].as_str(), "!") {
        Some(pattern) => RewriteCond {
            test_string: rest[0].clone(),
            pattern,
            negate: true,
            nocase,
        },
        None => RewriteCond {
            test_string: rest[0].clone(),
            pattern: rest[1].clone(),
            negate: false,
            nocase,
        },
    }
}

fn apply_redirect(r: &mut Rules, is_regex: bool, rest: &Vec<String>)
    ensures
        final(r)@ == on_redirect(old(r)@, is_regex, rest.deep_view()),
{
    let ghost before = r@.redirects;
    let ghost all = rest.deep_view();
    let mut at: usize = 0;
    let mut status: u16 = 302;
    if rest.len() > 0 {
        assert(all[0] == rest@[0]@);
        match parse_u16(rest[0].as_str()) {
            Some(code) => {
                status = code;
                at = 1;
            },
            None => match status_from_keyword(rest[0].as_str()) {
                Some(code) => {
                    status = code;
                    at = 1;
                },
                None => {},
            },
        }
    }
    if rest.len() > at + 1 {
        assert(all[at as int] == rest@[at as int]@ && all[at + 1] == rest@[at + 1]@);
        r.redirects.push(
            Redirect {
                is_regex,
                status,
                pattern: rest[at].clone(),
                target: rest[at + 1].clone(),
            },
        );
        assert(r@.redirects =~= before.push(
            RedirectView { is_regex, status, pattern: all[at as int], target: all[at + 1] },
        ));
    }
}

fn apply_plain(r: &mut Rules, d: &str, rest: &Vec<String>, dir: &str)
    ensures
        final(r)@ == on_plain(old(r)@, d@, rest.deep_view(), dir@),
{
    let ghost all = rest.deep_view();
    if d.eq("AuthType") {
        r.auth_type = first_of(rest);
    } else if d.eq("AuthName") {
        let whole = joined(rest, 0, rest.len(), " ");
        assert(all.subrange(0, all.len() as int) =~= all);
        let open = trim_start_of(whole.as_str(), Class::One('"'));
        r.auth_name = Some(trim_end_of(open.as_str(), Class::One('"')));
    } else if d.eq("AuthUserFile") {
        r.auth_user_file = first_path_of(rest, dir);
    } else if d.eq("AuthGroupFile") {
        r.auth_group_file = first_path_of(rest, dir);
    } else if d.eq("Require") {
        apply_require(r, rest);
    } else if d.eq("Order") {
        apply_order(r, rest);
    } else if d.eq("Allow") {
        parse_access(rest, &mut r.allow);
    } else if d.eq("Deny") {
        parse_access(rest, &mut r.deny);
    } else if d.eq("ErrorDocument") {
        apply_error_document(r, rest);
    } else if d.eq("DirectoryIndex") {
        if rest.len() > 0 {
            r.directory_index = Some(copy_strings(rest));
        }
    } else if d.eq("Options") {
        apply_options(r, rest);
    } else if d.eq("RewriteEngine") {
        assert(all.len() > 0 ==> all[0] == rest@[0]@);
        r.rewrite_engine = rest.len() > 0 && eq_ignore_case(rest[0].as_str(), "on");
    } else if d.eq("Redirect") {
        apply_redirect(r, false, rest);
    } else if d.eq("RedirectMatch") {
        apply_redirect(r, true, rest);
    }
}

/// The directives of a file with the text `text`, which stands in `dir`; seen
/// from the served directory that is `rel_dir`.
pub fn parse(text: &str, rel_dir: &str, dir: &str) -> (r: Rules)
    ensures
        r@ == parsed(text@, rel_dir@, dir@),
{
    let list = split_lines(text);
    let ghost all = list.deep_view();
    let mut r = Rules::default();
    let mut conds: Vec<RewriteCond> = Vec::new();
    let mut i: usize = 0;
    assert(all.take(0) =~= Seq::<Seq<char>>::empty());
    assert(conds.deep_view() =~= Seq::<RewriteCondView>::empty());
    while i < list.len()
        invariant
            i <= list.len(),
            all == list.deep_view(),
            (Progress { rules: r@, conds: conds.deep_view() }) == on_lines(
                all.take(i as int),
                rel_dir@,
                dir@,
            ),
        decreases list.len() - i,
    {
        assert(all.take(i + 1).drop_last() =~= all.take(i as int));
        assert(all.take(i + 1).last() == list@[i as int]@);
        let line = trimmed(list[i].as_str());
        let w = split_words(line.as_str());
        if !(line.as_str().is_empty() || has_prefix(line.as_str(), "#") || w.len() == 0) {
            assert(w.deep_view()[0] == w@[0]@);
            let rest = tail(&w);
            let ghost rs = rest.deep_view();
            let d = w[0].as_str();
            if d.eq("RewriteCond") {
                if rest.len() >= 2 {
                    let ghost before = conds.deep_view();
                    conds.push(cond_of(&rest));
                    assert(conds.deep_view() =~= before.push(cond(rs)));
                }
            } else if d.eq("RewriteRule") {
                if rest.len() >= 2 {
                    let ghost before = r@.rewrite_rules;
                    assert(rs[0] == rest@[0]@ && rs[1] == rest@[1]@);
                    let mut taken: Vec<RewriteCond> = Vec::new();
                    std::mem::swap(&mut taken, &mut conds);
                    let rule = RewriteRule {
                        pattern: rest[0].clone(),
                        substitution: rest[1].clone(),
                        flags: third_flags_of(&rest),
                        conds: taken,
                        dir: rel_dir.to_owned(),
                    };
                    let ghost view = rule.deep_view();
                    r.rewrite_rules.push(rule);
                    assert(r@.rewrite_rules =~= before.push(view));
                    assert(conds.deep_view() =~= Seq::<RewriteCondView>::empty());
                }
            } else {
                apply_plain(&mut r, d, &rest, dir);
            }
        }
        i = i + 1;
    }
    assert(all.take(all.len() as int) =~= all);
    r
}

} // verus!
