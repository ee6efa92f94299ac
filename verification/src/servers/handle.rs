//! What becomes of a request. The answer depends on files, which are asked for
//! one after the other: a decision is either a question or what to do.

use vstd::prelude::*;

use crate::configs::resolve::{Resolved, ResolvedView};
use crate::paths::{
    is_absolute, is_within, join_path, under_dir, under_dir_stays_within, within,
    within_is_transitive,
};
use crate::servers::cascade::{
    access_allowed, client_allowed, is_authorized, user_authorized,
};
use crate::servers::files::{
    bare_response, is_ht_path, names_ht, percent_decode, plain_path, respond_bare, Found,
    FoundView,
};
use crate::servers::htaccess::{Rules, RulesView};
use crate::servers::http::{
    add_field, one_field, Request, RequestView, Response, ResponseView,
};
use crate::servers::info::{HandlerType, IssueKind};
use crate::servers::pages::{error_response, reason, reason_phrase, respond_error, HTML};
use crate::servers::lookup::{candidate, candidate_path, path_steps, steps};
use crate::servers::passwords::{
    basic_auth, parse_basic_auth, password_ok, verify_password,
};
use crate::servers::proxy::{ProxyTarget, ProxyTargetView};
use crate::servers::rewrite::{apply_rewrites, outcome, RewriteOutcome, RewriteOutcomeView, Subject};
use crate::servers::ssi::{applies, has_directives};
use crate::servers::scripts::{
    ancestors, classify_script, client_parts, first_script, handler_type_for_route,
    resolve_script_path_info, route_of, script_ancestors, script_handler, scripts_stay_inside,
    Script, ScriptView,
};
use crate::text::{
    after, after_char, before, before_char, copy_strings, eq_ignore_case, has_prefix,
    rsplit_once_at, same_letters, starts_with, trim_start, trim_start_of, Class,
};

verus! {

// ---------------------------------------------------------------------------
// Questions and what is known
// ---------------------------------------------------------------------------

/// Something that has to be found out before a request can be answered.
#[derive(Debug)]
pub enum Question {
    /// Which directives apply to a path.
    Rules(String),
    /// What a password file says.
    Passwords(String),
    /// What a group file says.
    Groups(String),
    /// Whether any of these is a symbolic link.
    Symlinks(Vec<String>),
    /// What a path resolves to.
    Canonical(String),
    /// What each of these resolves to, and whether that is a file.
    Ancestors(Vec<String>),
    /// Whether a path is a directory.
    Directory(String),
    /// Which of these are files.
    Indexes(Vec<String>),
}

/// Something that has to be found out before a request can be answered.
pub enum QuestionView {
    Rules(Seq<char>),
    Passwords(Seq<char>),
    Groups(Seq<char>),
    Symlinks(Seq<Seq<char>>),
    Canonical(Seq<char>),
    Ancestors(Seq<Seq<char>>),
    Directory(Seq<char>),
    Indexes(Seq<Seq<char>>),
}

impl View for Question {
    type V = QuestionView;

    open spec fn view(&self) -> QuestionView {
        match self {
            Question::Rules(p) => QuestionView::Rules(p@),
            Question::Passwords(p) => QuestionView::Passwords(p@),
            Question::Groups(p) => QuestionView::Groups(p@),
            Question::Symlinks(l) => QuestionView::Symlinks(l.deep_view()),
            Question::Canonical(p) => QuestionView::Canonical(p@),
            Question::Ancestors(l) => QuestionView::Ancestors(l.deep_view()),
            Question::Directory(p) => QuestionView::Directory(p@),
            Question::Indexes(l) => QuestionView::Indexes(l.deep_view()),
        }
    }
}

/// What has been found out about a request, question by question.
pub struct Known {
    /// The directives that apply to its path.
    pub rules: Option<Rules>,
    /// The directives that apply to the path that it was rewritten to.
    pub moved_rules: Option<Rules>,
    /// The text of the password file, if it can be read.
    pub passwords: Option<Option<String>>,
    /// The text of the group file, if it can be read.
    pub groups: Option<Option<String>>,
    /// Whether the path goes through a symbolic link.
    pub symlink: Option<bool>,
    /// What the path resolves to, if it is there.
    pub canonical: Option<Option<String>>,
    /// What the ancestors of the path resolve to, if they are there.
    pub ancestors: Option<Vec<Option<Found>>>,
    /// Whether the path is a directory.
    pub directory: Option<bool>,
    /// Which of the index pages are files.
    pub indexes: Option<Vec<bool>>,
}

/// What has been found out about a request.
pub struct KnownView {
    pub rules: Option<RulesView>,
    pub moved_rules: Option<RulesView>,
    pub passwords: Option<Option<Seq<char>>>,
    pub groups: Option<Option<Seq<char>>>,
    pub symlink: Option<bool>,
    pub canonical: Option<Option<Seq<char>>>,
    pub ancestors: Option<Seq<Option<FoundView>>>,
    pub directory: Option<bool>,
    pub indexes: Option<Seq<bool>>,
}

/// Directives that may be known.
pub open spec fn rules_view(r: Option<Rules>) -> Option<RulesView> {
    match r {
        Some(r) => Some(r@),
        None => None,
    }
}

impl View for Known {
    type V = KnownView;

    open spec fn view(&self) -> KnownView {
        KnownView {
            rules: rules_view(self.rules),
            moved_rules: rules_view(self.moved_rules),
            passwords: self.passwords.deep_view(),
            groups: self.groups.deep_view(),
            symlink: self.symlink,
            canonical: self.canonical.deep_view(),
            ancestors: self.ancestors.deep_view(),
            directory: self.directory,
            indexes: match self.indexes {
                Some(v) => Some(v@),
                None => None,
            },
        }
    }
}

/// Nothing found out yet.
pub open spec fn nothing_known() -> KnownView {
    KnownView {
        rules: None,
        moved_rules: None,
        passwords: None,
        groups: None,
        symlink: None,
        canonical: None,
        ancestors: None,
        directory: None,
        indexes: None,
    }
}

impl Default for Known {
    fn default() -> (r: Known)
        ensures
            r@ == nothing_known(),
    {
        Known {
            rules: None,
            moved_rules: None,
            passwords: None,
            groups: None,
            symlink: None,
            canonical: None,
            ancestors: None,
            directory: None,
            indexes: None,
        }
    }
}

// ---------------------------------------------------------------------------
// Decisions
// ---------------------------------------------------------------------------

/// What to do next for a request.
#[derive(Debug)]
pub enum Act {
    /// Find something out.
    Ask(Question),
    /// Answer with the page for an error.
    Error(u16),
    /// Answer with the error document for a status, or its page.
    Document(u16),
    /// Answer with the page on what the server has done.
    Dashboard,
    /// Hand the request to the development server.
    Proxy,
    /// Send the client to a target, with a status.
    Redirect(u16, String),
    /// Ask for a password, for a realm.
    Challenge(String),
    /// Answer with a file.
    Serve(String),
    /// Answer with what the server-side directives of a file make of it.
    Render(String),
    /// List a directory.
    List(String),
    /// Run a script.
    Run(Script),
}

/// What to do next for a request.
pub enum ActView {
    Ask(QuestionView),
    Error(u16),
    Document(u16),
    Dashboard,
    Proxy,
    Redirect(u16, Seq<char>),
    Challenge(Seq<char>),
    Serve(Seq<char>),
    Render(Seq<char>),
    List(Seq<char>),
    Run(ScriptView),
}

impl View for Act {
    type V = ActView;

    open spec fn view(&self) -> ActView {
        match self {
            Act::Ask(q) => ActView::Ask(q@),
            Act::Error(s) => ActView::Error(*s),
            Act::Document(s) => ActView::Document(*s),
            Act::Dashboard => ActView::Dashboard,
            Act::Proxy => ActView::Proxy,
            Act::Redirect(s, t) => ActView::Redirect(*s, t@),
            Act::Challenge(r) => ActView::Challenge(r@),
            Act::Serve(p) => ActView::Serve(p@),
            Act::Render(p) => ActView::Render(p@),
            Act::List(p) => ActView::List(p@),
            Act::Run(s) => ActView::Run(s.deep_view()),
        }
    }
}

/// A problem that a request met.
#[derive(Debug)]
pub struct Issue {
    /// Its kind.
    pub kind: IssueKind,
    /// The path of the request.
    pub path: String,
    /// The cause.
    pub cause: String,
    /// What the path led to.
    pub target: String,
    /// The status of the answer.
    pub status: u16,
}

/// A problem that a request met.
pub struct IssueView {
    pub kind: IssueKind,
    pub path: Seq<char>,
    pub cause: Seq<char>,
    pub target: Seq<char>,
    pub status: u16,
}

impl DeepView for Issue {
    type V = IssueView;

    open spec fn deep_view(&self) -> IssueView {
        IssueView {
            kind: self.kind,
            path: self.path@,
            cause: self.cause@,
            target: self.target@,
            status: self.status,
        }
    }
}

/// What becomes of a request: what to do, and what to note of it.
#[derive(Debug)]
pub struct Verdict {
    /// What to do.
    pub act: Act,
    /// What answers, where times are kept of it.
    pub handler: Option<HandlerType>,
    /// The problem that was met.
    pub issue: Option<Issue>,
}

/// What becomes of a request.
pub struct VerdictView {
    pub act: ActView,
    pub handler: Option<HandlerType>,
    pub issue: Option<IssueView>,
}

impl View for Verdict {
    type V = VerdictView;

    open spec fn view(&self) -> VerdictView {
        VerdictView {
            act: self.act@,
            handler: self.handler,
            issue: self.issue.deep_view(),
        }
    }
}

/// Something to do that nothing is noted of.
pub open spec fn just(act: ActView) -> VerdictView {
    VerdictView { act, handler: None, issue: None }
}

fn only(act: Act) -> (r: Verdict)
    ensures
        r@ == just(act@),
{
    Verdict { act, handler: None, issue: None }
}

/// A question.
pub open spec fn ask(q: QuestionView) -> VerdictView {
    just(ActView::Ask(q))
}

fn question(q: Question) -> (r: Verdict)
    ensures
        r@ == ask(q@),
{
    only(Act::Ask(q))
}

/// What a decision depends on.
pub struct Scene {
    pub base: Seq<char>,
    pub opts: ResolvedView,
    pub proxy: Option<ProxyTargetView>,
    pub request: RequestView,
    pub client: Seq<char>,
    pub known: KnownView,
}

/// Whether a method is one that the server knows.
pub open spec fn known_method(m: Seq<char>) -> bool {
    m == "GET"@ || m == "HEAD"@ || m == "POST"@ || m == "PUT"@ || m == "DELETE"@ || m == "PATCH"@
        || m == "OPTIONS"@
}

fn is_known_method(m: &str) -> (r: bool)
    ensures
        r == known_method(m@),
{
    m.eq("GET") || m.eq("HEAD") || m.eq("POST") || m.eq("PUT") || m.eq("DELETE") || m.eq("PATCH")
        || m.eq("OPTIONS")
}

/// Whether a method only reads.
pub open spec fn reads(m: Seq<char>) -> bool {
    m == "GET"@ || m == "HEAD"@
}

fn is_reading(m: &str) -> (r: bool)
    ensures
        r == reads(m@),
{
    m.eq("GET") || m.eq("HEAD")
}

/// The path of a request, without its query and its escapes.
pub open spec fn decoded_path(q: RequestView) -> Seq<char> {
    plain_path(before(q.path, '?'))
}

/// What rewriting is about.
pub open spec fn subject(s: Scene, path: Seq<char>) -> Subject {
    Subject {
        path,
        query: after(s.request.path, '?'),
        method: s.request.method,
        remote: client_parts(s.client).0,
        headers: s.request.headers,
    }
}

/// A request that is refused by the directives of its path.
pub open spec fn denied(path: Seq<char>, cause: Seq<char>, target: Seq<char>) -> VerdictView {
    VerdictView {
        act: ActView::Document(403),
        handler: Some(HandlerType::HtaccessDenied),
        issue: Some(
            IssueView {
                kind: IssueKind::AccessControlDenial,
                path,
                cause,
                target,
                status: 403,
            },
        ),
    }
}

fn deny(path: &str, cause: &str, target: &str) -> (r: Verdict)
    ensures
        r@ == denied(path@, cause@, target@),
{
    Verdict {
        act: Act::Document(403),
        handler: Some(HandlerType::HtaccessDenied),
        issue: Some(
            Issue {
                kind: IssueKind::AccessControlDenial,
                path: path.to_owned(),
                cause: cause.to_owned(),
                target: target.to_owned(),
                status: 403,
            },
        ),
    }
}

/// A request that a script answers.
pub open spec fn run_script(base: Seq<char>, s: ScriptView) -> VerdictView {
    VerdictView {
        act: ActView::Run(s),
        handler: Some(script_handler(base, s.path)),
        issue: None,
    }
}

fn running(base_dir: &str, script: Script) -> (r: Verdict)
    ensures
        r@ == run_script(base_dir@, script.deep_view()),
{
    let handler = handler_type_for_route(base_dir, script.path.as_str());
    Verdict { act: Act::Run(script), handler: Some(handler), issue: None }
}

/// A request that a file answers: as it is, or as its directives make it where its
/// extension is one of those that may have any.
pub open spec fn serve(path: Seq<char>, ssi: Seq<Seq<char>>) -> VerdictView {
    VerdictView {
        act: if has_directives(path, ssi) {
            ActView::Render(path)
        } else {
            ActView::Serve(path)
        },
        handler: Some(HandlerType::StaticFile),
        issue: None,
    }
}

fn serving(path: &str, ssi: &Vec<String>) -> (r: Verdict)
    ensures
        r@ == serve(path@, ssi.deep_view()),
{
    Verdict {
        act: if applies(path, ssi) {
            Act::Render(path.to_owned())
        } else {
            Act::Serve(path.to_owned())
        },
        handler: Some(HandlerType::StaticFile),
        issue: None,
    }
}

/// What becomes of a request for a file: a script is run, and anything else is
/// sent to those who only read.
pub open spec fn at_file(s: Scene, path: Seq<char>) -> VerdictView {
    match route_of(s.base, path, s.opts.script_handlers) {
        Some(route) => run_script(
            s.base,
            ScriptView { path, route, path_info: ""@, path_translated: ""@ },
        ),
        None => if reads(s.request.method) {
            serve(path, s.opts.ssi_extensions)
        } else {
            just(ActView::Document(405))
        },
    }
}

/// The index pages of a directory.
pub open spec fn index_names(r: RulesView) -> Seq<Seq<char>> {
    match r.directory_index {
        Some(l) => l,
        None => seq!["index.html"@, "index.htm"@],
    }
}

/// The index pages of a directory, as paths.
pub open spec fn index_paths(r: RulesView, dir: Seq<char>) -> Seq<Seq<char>> {
    index_names(r).map_values(|n: Seq<char>| under_dir(dir, n))
}

/// The first of the index pages that is a file, from a place on.
pub open spec fn first_index(paths: Seq<Seq<char>>, flags: Seq<bool>, i: int) -> Option<Seq<char>>
    decreases paths.len() - i,
{
    if i < 0 || i >= paths.len() {
        None
    } else if i < flags.len() && flags[i] {
        Some(paths[i])
    } else {
        first_index(paths, flags, i + 1)
    }
}

/// Whether a directory is listed.
pub open spec fn is_listed(r: RulesView, opts: ResolvedView) -> bool {
    match r.indexes {
        Some(b) => b,
        None => opts.directory_listing,
    }
}

/// What becomes of a request for a directory.
pub open spec fn at_directory(s: Scene, r: RulesView, dir: Seq<char>) -> VerdictView {
    if !reads(s.request.method) {
        just(ActView::Document(405))
    } else {
        match s.known.indexes {
            None => ask(QuestionView::Indexes(index_paths(r, dir))),
            Some(flags) => match first_index(index_paths(r, dir), flags, 0) {
                Some(p) => match route_of(s.base, p, s.opts.script_handlers) {
                    Some(route) => run_script(
                        s.base,
                        ScriptView { path: p, route, path_info: ""@, path_translated: ""@ },
                    ),
                    None => serve(p, s.opts.ssi_extensions),
                },
                None => if is_listed(r, s.opts) {
                    VerdictView {
                        act: ActView::List(dir),
                        handler: Some(HandlerType::DirectoryListing),
                        issue: None,
                    }
                } else {
                    VerdictView {
                        act: ActView::Document(403),
                        handler: Some(HandlerType::HtaccessDenied),
                        issue: None,
                    }
                },
            },
        }
    }
}

/// What becomes of a request for something that is not there: a script may stand
/// somewhere in its path.
pub open spec fn at_nothing(s: Scene, path: Seq<char>) -> VerdictView {
    match s.known.ancestors {
        None => ask(QuestionView::Ancestors(ancestors(s.base, path))),
        Some(f) => match first_script(s.base, path, s.opts.script_handlers, f, 0) {
            Some(script) => run_script(s.base, script),
            None => VerdictView {
                act: ActView::Document(404),
                handler: Some(HandlerType::StaticFile),
                issue: Some(
                    IssueView {
                        kind: IssueKind::BrokenStaticRef,
                        path,
                        cause: "404 not found"@,
                        target: candidate(s.base, path),
                        status: 404,
                    },
                ),
            },
        },
    }
}

/// What becomes of a request for what a path names.
pub open spec fn at_candidate(s: Scene, r: RulesView, path: Seq<char>) -> VerdictView {
    match s.known.canonical {
        None => ask(QuestionView::Canonical(candidate(s.base, path))),
        Some(c) => match c {
            Some(p) => if within(s.base, p) {
                match s.known.directory {
                    None => ask(QuestionView::Directory(p)),
                    Some(d) => if d {
                        at_directory(s, r, p)
                    } else {
                        at_file(s, p)
                    },
                }
            } else {
                at_nothing(s, path)
            },
            None => at_nothing(s, path),
        },
    }
}

/// What becomes of a request that its client may make.
pub open spec fn admitted(s: Scene, r: RulesView, path: Seq<char>) -> VerdictView {
    if r.follow_symlinks == Some(false) {
        match s.known.symlink {
            None => ask(QuestionView::Symlinks(steps(s.base, candidate(s.base, path)))),
            Some(linked) => if linked {
                denied(path, "denied by Options -FollowSymLinks"@, candidate(s.base, path))
            } else {
                at_candidate(s, r, path)
            },
        }
    } else {
        at_candidate(s, r, path)
    }
}

/// Whether directives ask for a password.
pub open spec fn needs_password(r: RulesView) -> bool {
    r.auth_type is Some && same_letters(r.auth_type->0, "basic"@) && r.requires.len() > 0
}

/// The user that a request is from, if its password is right.
pub open spec fn user_of(q: RequestView, passwords: Option<Seq<char>>) -> Option<Seq<char>> {
    if q.headers.contains_key("authorization"@) {
        match basic_auth(q.headers["authorization"@]) {
            Some(c) => if password_ok(passwords, c.0, c.1) {
                Some(c.0)
            } else {
                None
            },
            None => None,
        }
    } else {
        None
    }
}

/// Where a path leads to that was refused.
pub open spec fn refused_target(base: Seq<char>, path: Seq<char>) -> Seq<char> {
    under_dir(base, trim_start(path, Class::One('/')))
}

/// The realm that a password is asked for.
pub open spec fn realm(r: RulesView) -> Seq<char> {
    match r.auth_name {
        Some(n) => n,
        None => "Restricted"@,
    }
}

/// What becomes of a request of a user.
pub open spec fn with_user(s: Scene, r: RulesView, path: Seq<char>, user: Seq<char>) -> VerdictView {
    if r.auth_group_file is Some && s.known.groups is None {
        ask(QuestionView::Groups(r.auth_group_file->0))
    } else {
        let text = match s.known.groups {
            Some(t) => t,
            None => None,
        };
        if user_authorized(r, user, text) {
            admitted(s, r, path)
        } else {
            denied(
                path,
                "user "@ + user + " not authorized (Require)"@,
                refused_target(s.base, path),
            )
        }
    }
}

/// What becomes of a request for a path under directives.
pub open spec fn under_rules(s: Scene, r: RulesView, path: Seq<char>) -> VerdictView {
    if !client_allowed(r, client_parts(s.client).0) {
        denied(path, "denied by Order/Allow/Deny"@, refused_target(s.base, path))
    } else if needs_password(r) {
        match r.auth_user_file {
            None => just(ActView::Document(500)),
            Some(f) => match s.known.passwords {
                None => ask(QuestionView::Passwords(f)),
                Some(text) => match user_of(s.request, text) {
                    None => just(ActView::Challenge(realm(r))),
                    Some(user) => with_user(s, r, path, user),
                },
            },
        }
    } else {
        admitted(s, r, path)
    }
}

/// What becomes of a request for a path of the site.
pub open spec fn on_site(s: Scene, path: Seq<char>) -> VerdictView {
    match s.known.rules {
        None => ask(QuestionView::Rules(path)),
        Some(r) => match outcome(r, subject(s, path)) {
            RewriteOutcomeView::Redirect(status, target) => just(
                ActView::Redirect(status, target),
            ),
            RewriteOutcomeView::Rewritten(p) => if names_ht(p) {
                just(ActView::Error(403))
            } else {
                match s.known.moved_rules {
                    None => ask(QuestionView::Rules(p)),
                    Some(m) => under_rules(s, m, p),
                }
            },
            RewriteOutcomeView::Unchanged => under_rules(s, r, path),
        },
    }
}

/// What becomes of a request.
pub open spec fn decision(s: Scene) -> VerdictView {
    let path = decoded_path(s.request);
    if !known_method(s.request.method) {
        just(ActView::Error(405))
    } else if names_ht(path) {
        just(ActView::Error(403))
    } else if path == "/server-info"@ && reads(s.request.method) {
        just(ActView::Dashboard)
    } else if s.proxy is Some && starts_with(path, (s.proxy->0).path_prefix) {
        VerdictView {
            act: ActView::Proxy,
            handler: Some(HandlerType::FrameworkProxy),
            issue: None,
        }
    } else {
        on_site(s, path)
    }
}

// ---------------------------------------------------------------------------
// Deciding
// ---------------------------------------------------------------------------

/// What decisions are made from.
pub struct Setting<'a> {
    /// The served directory.
    pub base_dir: &'a str,
    /// The settings.
    pub opts: &'a Resolved,
    /// The development server.
    pub proxy: Option<&'a ProxyTarget>,
    /// The request.
    pub request: &'a Request,
    /// The address and the port of its client.
    pub client: &'a str,
    /// What has been found out.
    pub known: &'a Known,
}

impl<'a> View for Setting<'a> {
    type V = Scene;

    open spec fn view(&self) -> Scene {
        Scene {
            base: self.base_dir@,
            opts: self.opts@,
            proxy: self.proxy.deep_view(),
            request: self.request@,
            client: self.client@,
            known: self.known@,
        }
    }
}

impl<'a> Setting<'a> {
    fn decide_file(&self, path: &str) -> (r: Verdict)
        ensures
            r@ == at_file(self@, path@),
    {
        match classify_script(self.base_dir, path, &self.opts.script_handlers) {
            Some(route) => running(
                self.base_dir,
                Script {
                    path: path.to_owned(),
                    route,
                    path_info: "".to_owned(),
                    path_translated: "".to_owned(),
                },
            ),
            None => if is_reading(self.request.method.as_str()) {
                serving(path, &self.opts.ssi_extensions)
            } else {
                only(Act::Document(405))
            },
        }
    }

    fn indexes_in(&self, rules: &Rules, dir: &str) -> (r: Vec<String>)
        ensures
            r.deep_view() == index_paths(rules@, dir@),
    {
        let names = match &rules.directory_index {
            Some(l) => copy_strings(l),
            None => {
                let mut v: Vec<String> = Vec::new();
                v.push("index.html".to_owned());
                v.push("index.htm".to_owned());
                assert(v.deep_view() =~= seq!["index.html"@, "index.htm"@]);
                v
            },
        };
        let ghost all = names.deep_view();
        let n: usize = names.len();
        let mut out: Vec<String> = Vec::new();
        let mut i: usize = 0;
        while i < n
            invariant
                i <= n,
                n == names@.len(),
                all == names.deep_view(),
                out@.len() == i,
                forall|j: int| 0 <= j < i ==> (#[trigger] out@[j])@ == under_dir(dir@, all[j]),
            decreases n - i,
        {
            assert(all[i as int] == names@[i as int]@);
            out.push(join_path(dir, names[i].as_str()));
            i = i + 1;
        }
        assert(out.deep_view() =~= index_paths(rules@, dir@)) by {
            assert forall|j: int| 0 <= j < n implies #[trigger] out.deep_view()[j] == under_dir(
                dir@,
                all[j],
            ) by {
                assert(out.deep_view()[j] == out@[j]@);
            }
        }
        out
    }

    fn decide_directory(&self, rules: &Rules, dir: &str) -> (r: Verdict)
        ensures
            r@ == at_directory(self@, rules@, dir@),
    {
        if !is_reading(self.request.method.as_str()) {
            return only(Act::Document(405));
        }
        let paths = self.indexes_in(rules, dir);
        let flags = match &self.known.indexes {
            None => {
                return question(Question::Indexes(paths));
            },
            Some(f) => f,
        };
        let ghost all = paths.deep_view();
        let n: usize = paths.len();
        let mut i: usize = 0;
        while i < n
            invariant
                i <= n,
                n == paths@.len(),
                all == paths.deep_view(),
                all == index_paths(rules@, dir@),
                self@.known.indexes == Some(flags@),
                reads(self@.request.method),
                first_index(all, flags@, 0) == first_index(all, flags@, i as int),
            decreases n - i,
        {
            if i < flags.len() && flags[i] {
                assert(all[i as int] == paths@[i as int]@);
                let p = paths[i].as_str();
                return match classify_script(self.base_dir, p, &self.opts.script_handlers) {
                    Some(route) => running(
                        self.base_dir,
                        Script {
                            path: p.to_owned(),
                            route,
                            path_info: "".to_owned(),
                            path_translated: "".to_owned(),
                        },
                    ),
                    None => serving(p, &self.opts.ssi_extensions),
                };
            }
            i = i + 1;
        }
        let listed = match rules.indexes {
            Some(b) => b,
            None => self.opts.directory_listing,
        };
        if listed {
            Verdict {
                act: Act::List(dir.to_owned()),
                handler: Some(HandlerType::DirectoryListing),
                issue: None,
            }
        } else {
            Verdict {
                act: Act::Document(403),
                handler: Some(HandlerType::HtaccessDenied),
                issue: None,
            }
        }
    }

    fn decide_nothing(&self, path: &str) -> (r: Verdict)
        ensures
            r@ == at_nothing(self@, path@),
    {
        let found = match &self.known.ancestors {
            None => {
                return question(Question::Ancestors(script_ancestors(self.base_dir, path)));
            },
            Some(f) => f,
        };
        match resolve_script_path_info(self.base_dir, path, &self.opts.script_handlers, found) {
            Some(script) => running(self.base_dir, script),
            None => Verdict {
                act: Act::Document(404),
                handler: Some(HandlerType::StaticFile),
                issue: Some(
                    Issue {
                        kind: IssueKind::BrokenStaticRef,
                        path: path.to_owned(),
                        cause: "404 not found".to_owned(),
                        target: candidate_path(self.base_dir, path),
                        status: 404,
                    },
                ),
            },
        }
    }

    fn decide_candidate(&self, rules: &Rules, path: &str) -> (r: Verdict)
        ensures
            r@ == at_candidate(self@, rules@, path@),
    {
        match &self.known.canonical {
            None => question(Question::Canonical(candidate_path(self.base_dir, path))),
            Some(Some(p)) => if is_within(self.base_dir, p.as_str()) {
                match self.known.directory {
                    None => question(Question::Directory(p.clone())),
                    Some(d) => if d {
                        self.decide_directory(rules, p.as_str())
                    } else {
                        self.decide_file(p.as_str())
                    },
                }
            } else {
                self.decide_nothing(path)
            },
            Some(None) => self.decide_nothing(path),
        }
    }

    fn decide_admitted(&self, rules: &Rules, path: &str) -> (r: Verdict)
        ensures
            r@ == admitted(self@, rules@, path@),
    {
        if let Some(false) = rules.follow_symlinks {
            let c = candidate_path(self.base_dir, path);
            match self.known.symlink {
                None => question(Question::Symlinks(path_steps(self.base_dir, c.as_str()))),
                Some(linked) => if linked {
                    deny(path, "denied by Options -FollowSymLinks", c.as_str())
                } else {
                    self.decide_candidate(rules, path)
                },
            }
        } else {
            self.decide_candidate(rules, path)
        }
    }

    fn refused(&self, path: &str) -> (r: String)
        ensures
            r@ == refused_target(self@.base, path@),
    {
        let rest = trim_start_of(path, Class::One('/'));
        join_path(self.base_dir, rest.as_str())
    }

    fn find_user(&self, passwords: &Option<String>) -> (r: Option<String>)
        ensures
            r.deep_view() == user_of(self@.request, passwords.deep_view()),
    {
        let text: Option<&str> = match passwords {
            Some(t) => Some(t.as_str()),
            None => None,
        };
        match self.request.headers.get("authorization") {
            Some(h) => match parse_basic_auth(h.as_str()) {
                Some(c) => if verify_password(text, c.0.as_str(), c.1.as_str()) {
                    Some(c.0)
                } else {
                    None
                },
                None => None,
            },
            None => None,
        }
    }

    fn decide_user(&self, rules: &Rules, path: &str, user: &str) -> (r: Verdict)
        ensures
            r@ == with_user(self@, rules@, path@, user@),
    {
        if let (Some(f), None) = (&rules.auth_group_file, &self.known.groups) {
            return question(Question::Groups(f.clone()));
        }
        let text: Option<&str> = match &self.known.groups {
            Some(Some(t)) => Some(t.as_str()),
            _ => None,
        };
        if is_authorized(rules, user, text) {
            self.decide_admitted(rules, path)
        } else {
            let mut cause = "user ".to_owned();
            cause.append(user);
            cause.append(" not authorized (Require)");
            let target = self.refused(path);
            deny(path, cause.as_str(), target.as_str())
        }
    }

    fn decide_rules(&self, rules: &Rules, path: &str) -> (r: Verdict)
        ensures
            r@ == under_rules(self@, rules@, path@),
    {
        let ip = match rsplit_once_at(self.client, ':') {
            Some(p) => p.0,
            None => self.client.to_owned(),
        };
        if !access_allowed(rules, ip.as_str()) {
            let target = self.refused(path);
            return deny(path, "denied by Order/Allow/Deny", target.as_str());
        }
        let basic = match &rules.auth_type {
            Some(t) => eq_ignore_case(t.as_str(), "basic"),
            None => false,
        };
        if basic && rules.require_valid_user() {
            match &rules.auth_user_file {
                None => only(Act::Document(500)),
                Some(f) => match &self.known.passwords {
                    None => question(Question::Passwords(f.clone())),
                    Some(text) => match self.find_user(text) {
                        None => {
                            let realm = match &rules.auth_name {
                                Some(n) => n.clone(),
                                None => "Restricted".to_owned(),
                            };
                            only(Act::Challenge(realm))
                        },
                        Some(user) => self.decide_user(rules, path, user.as_str()),
                    },
                },
            }
        } else {
            self.decide_admitted(rules, path)
        }
    }

    fn decide_site(&self, path: &str) -> (r: Verdict)
        ensures
            r@ == on_site(self@, path@),
    {
        let rules = match &self.known.rules {
            None => {
                return question(Question::Rules(path.to_owned()));
            },
            Some(r) => r,
        };
        let query = after_char(self.request.path.as_str(), '?');
        let ip = match rsplit_once_at(self.client, ':') {
            Some(p) => p.0,
            None => self.client.to_owned(),
        };
        match apply_rewrites(
            rules,
            path,
            query.as_str(),
            self.request.method.as_str(),
            ip.as_str(),
            &self.request.headers,
        ) {
            RewriteOutcome::Redirect(status, target) => only(Act::Redirect(status, target)),
            RewriteOutcome::Rewritten(p) => if is_ht_path(p.as_str()) {
                only(Act::Error(403))
            } else {
                match &self.known.moved_rules {
                    None => question(Question::Rules(p)),
                    Some(m) => self.decide_rules(m, p.as_str()),
                }
            },
            RewriteOutcome::Unchanged => self.decide_rules(rules, path),
        }
    }

    /// What becomes of the request.
    pub fn handle_request(&self) -> (r: Verdict)
        ensures
            r@ == decision(self@),
    {
        let method = self.request.method.as_str();
        if !is_known_method(method) {
            return only(Act::Error(405));
        }
        let raw = before_char(self.request.path.as_str(), '?');
        let path = percent_decode(raw.as_str());
        if is_ht_path(path.as_str()) {
            return only(Act::Error(403));
        }
        if path.as_str().eq("/server-info") && is_reading(method) {
            return only(Act::Dashboard);
        }
        if let Some(t) = self.proxy {
            if has_prefix(path.as_str(), t.path_prefix.as_str()) {
                return Verdict {
                    act: Act::Proxy,
                    handler: Some(HandlerType::FrameworkProxy),
                    issue: None,
                };
            }
        }
        self.decide_site(path.as_str())
    }
}

/// The problem that an answer of the development server is, if it is one.
pub open spec fn proxy_problem(q: RequestView, upstream: Seq<char>, status: u16) -> Option<
    IssueView,
> {
    if status >= 400 {
        Some(
            IssueView {
                kind: IssueKind::FrameworkProxyError,
                path: decoded_path(q),
                cause: "upstream returned status "@ + crate::digits::decimal(status as int),
                target: upstream,
                status,
            },
        )
    } else {
        None
    }
}

/// The problem that an answer of the development server is, if it is one.
pub fn proxy_issue(request: &Request, upstream: &str, status: u16) -> (r: Option<Issue>)
    ensures
        r.deep_view() == proxy_problem(request@, upstream@, status),
{
    if status < 400 {
        return None;
    }
    let raw = before_char(request.path.as_str(), '?');
    let mut cause = "upstream returned status ".to_owned();
    cause.append(crate::digits::decimal_of(status as u64).as_str());
    Some(
        Issue {
            kind: IssueKind::FrameworkProxyError,
            path: percent_decode(raw.as_str()),
            cause,
            target: upstream.to_owned(),
            status,
        },
    )
}

/// The problem that a script had: its interpreter is missing, or it failed.
pub open spec fn script_problem(
    q: RequestView,
    path: Seq<char>,
    cause: Seq<char>,
    missing: bool,
) -> IssueView {
    IssueView {
        kind: if missing {
            IssueKind::MissingInterpreter
        } else {
            IssueKind::ScriptFailure
        },
        path: decoded_path(q),
        cause,
        target: path,
        status: if missing {
            503
        } else {
            500
        },
    }
}

/// The problem that the script at a path had: its interpreter is missing, or it
/// failed.
pub fn script_issue(request: &Request, path: &str, cause: &str, missing: bool) -> (r: Issue)
    ensures
        r.deep_view() == script_problem(request@, path@, cause@, missing),
{
    let raw = before_char(request.path.as_str(), '?');
    Issue {
        kind: if missing {
            IssueKind::MissingInterpreter
        } else {
            IssueKind::ScriptFailure
        },
        path: percent_decode(raw.as_str()),
        cause: cause.to_owned(),
        target: path.to_owned(),
        status: if missing {
            503
        } else {
            500
        },
    }
}

// ---------------------------------------------------------------------------
// Answers
// ---------------------------------------------------------------------------

/// The response that sends a client to a target.
pub fn respond_redirect(status: u16, target: &str) -> (r: Response)
    ensures
        r@ == bare_response(status, reason(status), seq![("Location"@, target@)]),
{
    respond_bare(status, reason_phrase(status), one_field("Location", target))
}

/// The response that asks for a password.
pub open spec fn challenge_response(q: RequestView, debug: bool, realm: Seq<char>) -> ResponseView {
    ResponseView {
        headers: seq![
            ("Content-Type"@, HTML@),
            ("WWW-Authenticate"@, "Basic realm=\""@ + realm + "\""@),
        ],
        ..error_response(401, q, debug)
    }
}

/// The response that asks for a password.
pub fn respond_challenge(request: &Request, debug: bool, realm: &str) -> (r: Response)
    ensures
        r@ == challenge_response(request@, debug, realm@),
{
    let mut out = respond_error(401, request, debug);
    let mut value = "Basic realm=\"".to_owned();
    value.append(realm);
    value.append("\"");
    let mut headers = one_field("Content-Type", HTML);
    add_field(&mut headers, "WWW-Authenticate", value.as_str());
    assert(headers.deep_view() =~= seq![
        ("Content-Type"@, HTML@),
        ("WWW-Authenticate"@, "Basic realm=\""@ + realm@ + "\""@),
    ]);
    out.headers = headers;
    out
}

// ---------------------------------------------------------------------------
// Laws
// ---------------------------------------------------------------------------

/// Whether something of the site is handed out or run.
pub open spec fn hands_out(a: ActView) -> bool {
    a is Serve || a is Render || a is List || a is Run
}

/// A request that goes to or through a file that configures the server is
/// refused, whatever else is known.
pub proof fn configuration_is_never_served(s: Scene)
    requires
        names_ht(decoded_path(s.request)),
    ensures
        decision(s).act is Error,
        !hands_out(decision(s).act),
{
}

/// Nor does a rewrite lead there: what is handed out was asked for under a path
/// that goes to no such file, before and after it was rewritten.
pub proof fn rewrites_reach_no_configuration(s: Scene, r: RulesView, p: Seq<char>)
    requires
        s.known.rules == Some(r),
        outcome(r, subject(s, decoded_path(s.request))) == RewriteOutcomeView::Rewritten(p),
        names_ht(p),
    ensures
        !hands_out(decision(s).act),
{
}

/// A client that the directives of the path refuse gets nothing of the site.
pub proof fn refused_clients_get_nothing(s: Scene, r: RulesView, path: Seq<char>)
    requires
        !client_allowed(r, client_parts(s.client).0),
    ensures
        under_rules(s, r, path).act == ActView::Document(403),
{
}

/// Where directives ask for a password, nothing is handed out without a right
/// one.
pub proof fn passwords_are_required(s: Scene, r: RulesView, path: Seq<char>)
    requires
        needs_password(r),
        s.known.passwords is Some ==> user_of(s.request, s.known.passwords->0) is None,
    ensures
        !hands_out(under_rules(s, r, path).act),
{
}

/// A user who is not among those that directives name gets nothing.
pub proof fn users_are_authorized(s: Scene, r: RulesView, path: Seq<char>, text: Option<Seq<char>>)
    requires
        needs_password(r),
        s.known.passwords == Some(text),
        user_of(s.request, text) matches Some(u) && !user_authorized(
            r,
            u,
            match s.known.groups {
                Some(t) => t,
                None => None,
            },
        ),
    ensures
        !hands_out(under_rules(s, r, path).act),
{
}

/// The directives that a request comes under, and the path that it is about, once
/// both are known and it has been rewritten.
pub open spec fn in_effect(s: Scene) -> Option<(RulesView, Seq<char>)> {
    let path = decoded_path(s.request);
    match s.known.rules {
        None => None,
        Some(r) => match outcome(r, subject(s, path)) {
            RewriteOutcomeView::Redirect(_, _) => None,
            RewriteOutcomeView::Rewritten(p) => match s.known.moved_rules {
                None => None,
                Some(m) => Some((m, p)),
            },
            RewriteOutcomeView::Unchanged => Some((r, path)),
        },
    }
}

/// Whether a request is one of a user that directives name, with a right password.
pub open spec fn is_of_named_user(s: Scene, r: RulesView) -> bool {
    match s.known.passwords {
        None => false,
        Some(text) => match user_of(s.request, text) {
            None => false,
            Some(user) => user_authorized(
                r,
                user,
                match s.known.groups {
                    Some(t) => t,
                    None => None,
                },
            ),
        },
    }
}

/// Nothing of the site is handed out or run but under directives that let the
/// client in, to a user that they name where they ask for a password, and for a
/// path that goes to no file that configures the server.
pub proof fn what_is_handed_out_was_allowed(s: Scene)
    requires
        hands_out(decision(s).act),
    ensures
        in_effect(s) matches Some((r, path)) && {
            &&& client_allowed(r, client_parts(s.client).0)
            &&& needs_password(r) ==> is_of_named_user(s, r)
            &&& !names_ht(decoded_path(s.request))
            &&& !names_ht(path)
        },
{
}

proof fn lemma_index_is_listed(list: Seq<Seq<char>>, flags: Seq<bool>, i: int)
    ensures
        first_index(list, flags, i) matches Some(p) ==> list.contains(p),
    decreases list.len() - i,
{
    if 0 <= i < list.len() && !(i < flags.len() && flags[i]) {
        lemma_index_is_listed(list, flags, i + 1);
    }
}

/// Whether what is handed out lies in a directory.
pub open spec fn stays_in(base: Seq<char>, a: ActView) -> bool {
    match a {
        ActView::Serve(p) => within(base, p),
        ActView::Render(p) => within(base, p),
        ActView::List(p) => within(base, p),
        ActView::Run(x) => within(base, x.path),
        _ => true,
    }
}

/// An index page whose name does not start at the root lies where its directory
/// does.
proof fn lemma_index_stays_inside(base: Seq<char>, r: RulesView, d: Seq<char>, flags: Seq<bool>)
    requires
        forall|i: int| 0 <= i < index_names(r).len() ==> !is_absolute(#[trigger] index_names(r)[i]),
        within(base, d),
    ensures
        first_index(index_paths(r, d), flags, 0) matches Some(p) ==> within(base, p),
{
    let list = index_paths(r, d);
    lemma_index_is_listed(list, flags, 0);
    if let Some(p) = first_index(list, flags, 0) {
        let i = choose|i: int| 0 <= i < list.len() && list[i] == p;
        assert(!is_absolute(index_names(r)[i]));
        assert(p == under_dir(d, index_names(r)[i]));
        under_dir_stays_within(d, index_names(r)[i]);
        within_is_transitive(base, d, p);
    }
}

#[verifier::spinoff_prover]
proof fn lemma_rules_stay_inside(s: Scene, r: RulesView, path: Seq<char>)
    requires
        forall|i: int| 0 <= i < index_names(r).len() ==> !is_absolute(#[trigger] index_names(r)[i]),
    ensures
        stays_in(s.base, under_rules(s, r, path).act),
{
    if s.known.ancestors is Some {
        scripts_stay_inside(s.base, path, s.opts.script_handlers, s.known.ancestors->0, 0);
    }
    if let Some(Some(d)) = s.known.canonical {
        if let Some(flags) = s.known.indexes {
            if within(s.base, d) {
                lemma_index_stays_inside(s.base, r, d, flags);
            }
        }
    }
}

/// What is handed out lies in the served directory, whatever path was asked for
/// and whatever it resolves to; unless directives name an index page that starts
/// at the root. To lie in a directory is said of how a path is written: an index
/// page that climbs with `..` counts as one below its directory, and where it leads
/// is not followed.
pub proof fn only_the_site_is_handed_out(s: Scene)
    requires
        in_effect(s) matches Some((r, _)) ==> forall|i: int|
            0 <= i < index_names(r).len() ==> !is_absolute(#[trigger] index_names(r)[i]),
    ensures
        stays_in(s.base, decision(s).act),
{
    if let Some((r, path)) = in_effect(s) {
        lemma_rules_stay_inside(s, r, path);
    }
}

/// A file is rendered just where its extension is one of those that may have
/// directives, and sent as it is everywhere else.
pub proof fn directives_are_followed_where_configured(s: Scene)
    ensures
        decision(s).act matches ActView::Render(p) ==> has_directives(p, s.opts.ssi_extensions),
        decision(s).act matches ActView::Serve(p) ==> !has_directives(p, s.opts.ssi_extensions),
{
}

/// Only requests that read are answered with files or listings.
pub proof fn only_readers_get_files(s: Scene)
    ensures
        decision(s).act is Serve || decision(s).act is Render || decision(s).act is List ==> reads(
            s.request.method,
        ),
{
}

/// Whether a question is answered by what is known.
pub open spec fn answered(k: KnownView, q: QuestionView) -> bool {
    match q {
        QuestionView::Rules(_) => k.rules is Some && k.moved_rules is Some,
        QuestionView::Passwords(_) => k.passwords is Some,
        QuestionView::Groups(_) => k.groups is Some,
        QuestionView::Symlinks(_) => k.symlink is Some,
        QuestionView::Canonical(_) => k.canonical is Some,
        QuestionView::Ancestors(_) => k.ancestors is Some,
        QuestionView::Directory(_) => k.directory is Some,
        QuestionView::Indexes(_) => k.indexes is Some,
    }
}

proof fn lemma_admitted_asks(s: Scene, r: RulesView, path: Seq<char>)
    ensures
        admitted(s, r, path).act matches ActView::Ask(q) ==> !answered(s.known, q),
{
}

proof fn lemma_rules_ask(s: Scene, r: RulesView, path: Seq<char>)
    ensures
        under_rules(s, r, path).act matches ActView::Ask(q) ==> !answered(s.known, q),
{
    lemma_admitted_asks(s, r, path);
}

/// No question is asked that is answered already, so that after an answer to each
/// there is nothing left to ask.
pub proof fn questions_come_to_an_end(s: Scene)
    ensures
        decision(s).act matches ActView::Ask(q) ==> !answered(s.known, q),
{
    let path = decoded_path(s.request);
    if let Some(r) = s.known.rules {
        lemma_rules_ask(s, r, path);
        if let RewriteOutcomeView::Rewritten(p) = outcome(r, subject(s, path)) {
            if let Some(m) = s.known.moved_rules {
                lemma_rules_ask(s, m, p);
            }
        }
    }
}

} // verus!
