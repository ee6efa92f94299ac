//! Scripts: which files are run, with what, and what their output stands for.

use vstd::prelude::*;
use vstd::utf8::encode_utf8;

use crate::configs::resolve::{Resolved, ResolvedView};
use crate::digits::{decimal, decimal_of, number16, parse_u16};
use crate::outside::{lossy_string, lossy_text};
use crate::paths::{
    absolute, extension, extension_of, in_top_dir, is_absolute, is_in_top_dir, is_within,
    join_path, parent, parent_of, relative, relative_to, under_dir, within,
};
use crate::servers::files::{Found, FoundView};
use crate::servers::htaccess::{drop_empty, nonempty};
use crate::servers::http::{
    add_field, bytes_of, one_field, Body, BodyView, Request, RequestView, Response, ResponseView,
};
use crate::servers::info::HandlerType;
use crate::servers::pages::{
    error_html, error_page_with_trace, page_response, reason, reason_phrase, respond_page, HTML,
};
use crate::supports::version::VERSION;
use crate::table::{pairs_of, Table};
use crate::text::{
    after, after_char, before, before_char, eq_ignore_case, join, joined, lower, lowered, replace,
    replaced, rsplit_once, rsplit_once_at, same_letters, split, split_at_char, split_once,
    split_once_at, split_words, trim, trim_end, trim_end_of, trim_start, trim_start_of, trimmed,
    upper, uppered, words, Class,
};

verus! {

// ---------------------------------------------------------------------------
// Which files are scripts
// ---------------------------------------------------------------------------

/// How a script is run.
#[derive(Debug)]
pub enum ScriptRoute {
    /// By itself.
    ExecDirect,
    /// By an interpreter, which is a command with its arguments.
    Interpreter(String),
}

/// How a script is run.
pub enum ScriptRouteView {
    ExecDirect,
    Interpreter(Seq<char>),
}

impl DeepView for ScriptRoute {
    type V = ScriptRouteView;

    open spec fn deep_view(&self) -> ScriptRouteView {
        match self {
            ScriptRoute::ExecDirect => ScriptRouteView::ExecDirect,
            ScriptRoute::Interpreter(c) => ScriptRouteView::Interpreter(c@),
        }
    }
}

/// How a file is run, if it is a script: everything in `cgi-bin` runs by itself,
/// and elsewhere the extension decides. An extension without a command, or with an
/// empty one, is switched off.
pub open spec fn route_of(
    base: Seq<char>,
    path: Seq<char>,
    handlers: Map<Seq<char>, Option<Seq<char>>>,
) -> Option<ScriptRouteView> {
    let ext = lower(
        match extension(path) {
            Some(e) => e,
            None => ""@,
        },
    );
    if in_top_dir(base, path, "cgi-bin"@) {
        Some(ScriptRouteView::ExecDirect)
    } else if ext.len() == 0 || !handlers.contains_key(ext) {
        None
    } else {
        match handlers[ext] {
            Some(c) => if c.len() == 0 {
                None
            } else if c == "exec"@ {
                Some(ScriptRouteView::ExecDirect)
            } else {
                Some(ScriptRouteView::Interpreter(c))
            },
            None => None,
        }
    }
}

/// How a file is run, if it is a script.
pub fn classify_script(
    base_dir: &str,
    path: &str,
    handlers: &Table<Option<String>>,
) -> (r: Option<ScriptRoute>)
    ensures
        r.deep_view() == route_of(base_dir@, path@, handlers@),
{
    if is_in_top_dir(base_dir, path, "cgi-bin") {
        return Some(ScriptRoute::ExecDirect);
    }
    let ext = match extension_of(path) {
        Some(e) => e,
        None => "".to_owned(),
    };
    let ext = lowered(ext.as_str());
    if ext.as_str().is_empty() {
        return None;
    }
    match handlers.get(ext.as_str()) {
        Some(Some(c)) => if c.as_str().is_empty() {
            None
        } else if c.as_str().eq("exec") {
            Some(ScriptRoute::ExecDirect)
        } else {
            Some(ScriptRoute::Interpreter(c.clone()))
        },
        _ => None,
    }
}

/// What answers for a script.
pub open spec fn script_handler(base: Seq<char>, path: Seq<char>) -> HandlerType {
    if in_top_dir(base, path, "cgi-bin"@) {
        HandlerType::CgiBin
    } else {
        HandlerType::ScriptCgi
    }
}

/// What answers for a script.
pub fn handler_type_for_route(base_dir: &str, path: &str) -> (r: HandlerType)
    ensures
        r == script_handler(base_dir@, path@),
{
    if is_in_top_dir(base_dir, path, "cgi-bin") {
        HandlerType::CgiBin
    } else {
        HandlerType::ScriptCgi
    }
}

/// A script to run for a request.
#[derive(Debug)]
pub struct Script {
    /// The script.
    pub path: String,
    /// How it is run.
    pub route: ScriptRoute,
    /// What follows the script in the path of the request.
    pub path_info: String,
    /// The same as a path of the file system.
    pub path_translated: String,
}

/// A script to run for a request.
#[verifier::ext_equal]
pub struct ScriptView {
    pub path: Seq<char>,
    pub route: ScriptRouteView,
    pub path_info: Seq<char>,
    pub path_translated: Seq<char>,
}

impl DeepView for Script {
    type V = ScriptView;

    open spec fn deep_view(&self) -> ScriptView {
        ScriptView {
            path: self.path@,
            route: self.route.deep_view(),
            path_info: self.path_info@,
            path_translated: self.path_translated@,
        }
    }
}

/// The pieces of a path between its slashes.
pub open spec fn segments(decoded: Seq<char>) -> Seq<Seq<char>> {
    nonempty(split(trim_start(decoded, Class::One('/')), '/'))
}

fn segments_of(decoded: &str) -> (r: Vec<String>)
    ensures
        r.deep_view() == segments(decoded@),
{
    let t = trim_start_of(decoded, Class::One('/'));
    drop_empty(split_at_char(t.as_str(), '/'))
}

/// The file that the first pieces of a path name.
pub open spec fn ancestor(base: Seq<char>, segs: Seq<Seq<char>>, n: int) -> Seq<char> {
    if n <= 0 {
        base
    } else {
        under_dir(base, join(segs.take(n), "/"@))
    }
}

/// What follows the first pieces of a path.
pub open spec fn rest_of(segs: Seq<Seq<char>>, n: int) -> Seq<char> {
    "/"@ + join(segs.skip(n), "/"@)
}

/// The files that the path of a request may name when its last pieces are left
/// out: first with one piece less, then with two, and so on.
pub open spec fn ancestors(base: Seq<char>, decoded: Seq<char>) -> Seq<Seq<char>> {
    let s = segments(decoded);
    Seq::new(s.len(), |k: int| ancestor(base, s, s.len() - 1 - k))
}

/// The files that the path of a request may name when its last pieces are left
/// out.
pub fn script_ancestors(base_dir: &str, decoded: &str) -> (r: Vec<String>)
    ensures
        r.deep_view() == ancestors(base_dir@, decoded@),
{
    let segs = segments_of(decoded);
    let ghost s = segs.deep_view();
    let n: usize = segs.len();
    let mut out: Vec<String> = Vec::new();
    let mut k: usize = 0;
    while k < n
        invariant
            k <= n,
            n == segs@.len(),
            s == segs.deep_view(),
            out@.len() == k,
            forall|j: int| 0 <= j < k ==> (#[trigger] out@[j])@ == ancestor(base_dir@, s, n - 1 - j),
        decreases n - k,
    {
        let m: usize = n - 1 - k;
        if m == 0 {
            out.push(base_dir.to_owned());
        } else {
            let text = joined(&segs, 0, m, "/");
            assert(s.subrange(0, m as int) =~= s.take(m as int));
            out.push(join_path(base_dir, text.as_str()));
        }
        k = k + 1;
    }
    assert(out.deep_view() =~= ancestors(base_dir@, decoded@)) by {
        assert forall|j: int| 0 <= j < n implies #[trigger] out.deep_view()[j] == ancestors(
            base_dir@,
            decoded@,
        )[j] by {
            assert(out.deep_view()[j] == out@[j]@);
        }
    }
    out
}

/// What was found of the ancestor at a place.
pub open spec fn found_at(found: Seq<Option<FoundView>>, k: int) -> Option<FoundView> {
    if 0 <= k < found.len() {
        found[k]
    } else {
        None
    }
}

/// The first of the ancestors, from a place on, that is a script within the
/// served directory.
pub open spec fn first_script(
    base: Seq<char>,
    decoded: Seq<char>,
    handlers: Map<Seq<char>, Option<Seq<char>>>,
    found: Seq<Option<FoundView>>,
    k: int,
) -> Option<ScriptView>
    decreases segments(decoded).len() - k,
{
    let s = segments(decoded);
    if k < 0 || k >= s.len() {
        None
    } else {
        match found_at(found, k) {
            Some(f) => if within(base, f.path) && f.is_file && route_of(
                base,
                f.path,
                handlers,
            ) is Some {
                Some(
                    ScriptView {
                        path: f.path,
                        route: route_of(base, f.path, handlers)->0,
                        path_info: rest_of(s, s.len() - 1 - k),
                        path_translated: under_dir(
                            base,
                            trim_start(rest_of(s, s.len() - 1 - k), Class::One('/')),
                        ),
                    },
                )
            } else {
                first_script(base, decoded, handlers, found, k + 1)
            },
            None => first_script(base, decoded, handlers, found, k + 1),
        }
    }
}

/// The script that the path of a request goes through, given what was found of
/// its ancestors.
pub fn resolve_script_path_info(
    base_dir: &str,
    decoded: &str,
    handlers: &Table<Option<String>>,
    found: &Vec<Option<Found>>,
) -> (r: Option<Script>)
    ensures
        r.deep_view() == first_script(base_dir@, decoded@, handlers@, found.deep_view(), 0),
{
    let segs = segments_of(decoded);
    let ghost s = segs.deep_view();
    let ghost fv = found.deep_view();
    let n: usize = segs.len();
    let m: usize = found.len();
    let mut k: usize = 0;
    while k < n
        invariant
            k <= n,
            n == segs@.len(),
            m == found@.len(),
            s == segs.deep_view(),
            s == segments(decoded@),
            fv == found.deep_view(),
            first_script(base_dir@, decoded@, handlers@, fv, 0) == first_script(
                base_dir@,
                decoded@,
                handlers@,
                fv,
                k as int,
            ),
        decreases n - k,
    {
        if k < m {
            assert(fv[k as int] == found@[k as int].deep_view());
            if let Some(f) = &found[k] {
                if is_within(base_dir, f.path.as_str()) && f.is_file {
                    if let Some(route) = classify_script(base_dir, f.path.as_str(), handlers) {
                        let left: usize = n - 1 - k;
                        let mut info = "/".to_owned();
                        let rest = joined(&segs, left, n, "/");
                        assert(s.subrange(left as int, n as int) =~= s.skip(left as int));
                        info.append(rest.as_str());
                        let tail = trim_start_of(info.as_str(), Class::One('/'));
                        let translated = join_path(base_dir, tail.as_str());
                        return Some(
                            Script {
                                path: f.path.clone(),
                                route,
                                path_info: info,
                                path_translated: translated,
                            },
                        );
                    }
                }
            }
        }
        k = k + 1;
    }
    None
}

/// A script that the path of a request goes through lies in the served
/// directory.
pub proof fn scripts_stay_inside(
    base: Seq<char>,
    decoded: Seq<char>,
    handlers: Map<Seq<char>, Option<Seq<char>>>,
    found: Seq<Option<FoundView>>,
    k: int,
)
    ensures
        first_script(base, decoded, handlers, found, k) matches Some(s) ==> within(base, s.path),
    decreases segments(decoded).len() - k,
{
    if 0 <= k < segments(decoded).len() {
        scripts_stay_inside(base, decoded, handlers, found, k + 1);
    }
}

// ---------------------------------------------------------------------------
// What is run
// ---------------------------------------------------------------------------

/// Where an interpreter may be: at its own path, or in one of the directories
/// that the environment lists.
pub open spec fn interpreter_places(bin: Seq<char>, path_var: Option<Seq<char>>) -> Seq<Seq<char>> {
    if is_absolute(bin) {
        seq![bin]
    } else {
        match path_var {
            Some(v) => split(v, ':').map_values(|d: Seq<char>| under_dir(d, bin)),
            None => Seq::empty(),
        }
    }
}

/// Where an interpreter may be.
pub fn interpreter_candidates(bin: &str, path_var: Option<&str>) -> (r: Vec<String>)
    ensures
        r.deep_view() == interpreter_places(bin@, path_var.deep_view()),
{
    let mut out: Vec<String> = Vec::new();
    if absolute(bin) {
        out.push(bin.to_owned());
        assert(out.deep_view() =~= seq![bin@]);
        return out;
    }
    if let Some(v) = path_var {
        let dirs = split_at_char(v, ':');
        let ghost all = dirs.deep_view();
        let n: usize = dirs.len();
        let mut i: usize = 0;
        while i < n
            invariant
                i <= n,
                n == dirs@.len(),
                all == dirs.deep_view(),
                out@.len() == i,
                forall|j: int| 0 <= j < i ==> (#[trigger] out@[j])@ == under_dir(all[j], bin@),
            decreases n - i,
        {
            assert(all[i as int] == dirs@[i as int]@);
            out.push(join_path(dirs[i].as_str(), bin));
            i = i + 1;
        }
        assert(out.deep_view() =~= all.map_values(|d: Seq<char>| under_dir(d, bin@))) by {
            assert forall|j: int| 0 <= j < n implies #[trigger] out.deep_view()[j] == under_dir(
                all[j],
                bin@,
            ) by {
                assert(out.deep_view()[j] == out@[j]@);
            }
        }
    } else {
        assert(out.deep_view() =~= Seq::<Seq<char>>::empty());
    }
    out
}

/// The command of an interpreter, if it has one.
pub open spec fn interpreter_bin(route: ScriptRouteView) -> Option<Seq<char>> {
    match route {
        ScriptRouteView::Interpreter(c) => if words(c).len() > 0 {
            Some(words(c)[0])
        } else {
            None
        },
        ScriptRouteView::ExecDirect => None,
    }
}

/// The command of an interpreter, if it has one.
pub fn interpreter_of(route: &ScriptRoute) -> (r: Option<String>)
    ensures
        r.deep_view() == interpreter_bin(route.deep_view()),
{
    match route {
        ScriptRoute::Interpreter(c) => {
            let w = split_words(c.as_str());
            if w.len() > 0 {
                assert(w.deep_view()[0] == w@[0]@);
                Some(w[0].clone())
            } else {
                None
            }
        },
        ScriptRoute::ExecDirect => None,
    }
}

/// What to do with a script.
#[derive(Debug)]
pub enum ScriptPlan {
    /// Nothing: it cannot be run, for a reason.
    Failure(String),
    /// Nothing: its interpreter is missing, as a message says.
    Missing(String),
    /// Run a program with arguments.
    Run(String, Vec<String>),
}

/// What to do with a script.
pub enum ScriptPlanView {
    Failure(Seq<char>),
    Missing(Seq<char>),
    Run(Seq<char>, Seq<Seq<char>>),
}

impl View for ScriptPlan {
    type V = ScriptPlanView;

    open spec fn view(&self) -> ScriptPlanView {
        match self {
            ScriptPlan::Failure(d) => ScriptPlanView::Failure(d@),
            ScriptPlan::Missing(d) => ScriptPlanView::Missing(d@),
            ScriptPlan::Run(p, a) => ScriptPlanView::Run(p@, a.deep_view()),
        }
    }
}

/// What to do with a script: it has to be executable to run by itself, and its
/// interpreter has to be there otherwise.
pub open spec fn plan(
    path: Seq<char>,
    route: ScriptRouteView,
    executable: bool,
    interpreter: Option<Seq<char>>,
) -> ScriptPlanView {
    match route {
        ScriptRouteView::ExecDirect => if executable {
            ScriptPlanView::Run(path, Seq::empty())
        } else {
            ScriptPlanView::Failure(path + NOT_EXECUTABLE@)
        },
        ScriptRouteView::Interpreter(c) => if words(c).len() == 0 {
            ScriptPlanView::Failure(EMPTY_COMMAND@)
        } else {
            match interpreter {
                Some(p) => ScriptPlanView::Run(p, words(c).skip(1).push(path)),
                None => ScriptPlanView::Missing(words(c)[0] + " is not installed"@),
            }
        },
    }
}

/// What is wrong with a script that cannot run by itself.
pub const NOT_EXECUTABLE: &'static str =
    " is not marked executable (cgi-bin/exec-directly scripts require their own executable bit and shebang/native binary)";

/// What is wrong with a script whose interpreter has no name.
pub const EMPTY_COMMAND: &'static str = "script_handlers entry resolved to an empty command";

/// What to do with a script, given whether it is executable and where its
/// interpreter was found.
pub fn plan_script(
    path: &str,
    route: &ScriptRoute,
    executable: bool,
    interpreter: Option<String>,
) -> (r: ScriptPlan)
    ensures
        r@ == plan(path@, route.deep_view(), executable, interpreter.deep_view()),
{
    match route {
        ScriptRoute::ExecDirect => if executable {
            let none: Vec<String> = Vec::new();
            assert(none.deep_view() =~= Seq::<Seq<char>>::empty());
            ScriptPlan::Run(path.to_owned(), none)
        } else {
            let mut d = path.to_owned();
            d.append(NOT_EXECUTABLE);
            ScriptPlan::Failure(d)
        },
        ScriptRoute::Interpreter(c) => {
            let w = split_words(c.as_str());
            let ghost all = w.deep_view();
            let n: usize = w.len();
            if n == 0 {
                return ScriptPlan::Failure(EMPTY_COMMAND.to_owned());
            }
            match interpreter {
                Some(p) => {
                    let mut args: Vec<String> = Vec::new();
                    let mut i: usize = 1;
                    assert(args.deep_view() =~= all.subrange(1, 1));
                    while i < n
                        invariant
                            1 <= i <= n,
                            n == w@.len(),
                            all == w.deep_view(),
                            args.deep_view() == all.subrange(1, i as int),
                        decreases n - i,
                    {
                        let ghost before = args.deep_view();
                        args.push(w[i].clone());
                        assert(args.deep_view() =~= before.push(all[i as int]));
                        assert(args.deep_view() =~= all.subrange(1, i + 1));
                        i = i + 1;
                    }
                    let ghost before = args.deep_view();
                    args.push(path.to_owned());
                    assert(args.deep_view() =~= before.push(path@));
                    assert(before =~= all.skip(1));
                    ScriptPlan::Run(p, args)
                },
                None => {
                    assert(all[0] == w@[0]@);
                    let mut d = w[0].clone();
                    d.append(" is not installed");
                    ScriptPlan::Missing(d)
                },
            }
        },
    }
}

// ---------------------------------------------------------------------------
// The environment of a script
// ---------------------------------------------------------------------------

/// The address and the port of a client.
pub open spec fn client_parts(client: Seq<char>) -> (Seq<char>, Seq<char>) {
    match rsplit_once(client, ':') {
        Some(p) => p,
        None => (client, ""@),
    }
}

/// The name under which a script is known to clients.
pub open spec fn script_name(base: Seq<char>, path: Seq<char>) -> Seq<char> {
    "/"@ + replace(relative(base, path), '\\', "/"@)
}

/// The variable of a header field.
pub open spec fn header_variable(name: Seq<char>) -> Seq<char> {
    "HTTP_"@ + replace(upper(name), '-', "_"@)
}

/// The variables of header fields. Those on the type and the length of the body
/// have variables of their own.
pub open spec fn header_variables(
    start: Seq<(Seq<char>, Seq<char>)>,
    p: Seq<(Seq<char>, Seq<char>)>,
) -> Seq<(Seq<char>, Seq<char>)>
    decreases p.len(),
{
    if p.len() == 0 {
        start
    } else {
        let rest = header_variables(start, p.drop_last());
        if same_letters(p.last().0, "content-type"@) || same_letters(
            p.last().0,
            "content-length"@,
        ) {
            rest
        } else {
            rest.push((header_variable(p.last().0), p.last().1))
        }
    }
}

/// The variables that say what a script is run for.
pub open spec fn fixed_variables(
    base: Seq<char>,
    s: ScriptView,
    q: RequestView,
    opts: ResolvedView,
    body_len: int,
    client: Seq<char>,
) -> Seq<(Seq<char>, Seq<char>)> {
    let list = seq![
        ("REQUEST_METHOD"@, q.method),
        ("QUERY_STRING"@, after(q.path, '?')),
        (
            "CONTENT_TYPE"@,
            if q.headers.contains_key("content-type"@) {
                q.headers["content-type"@]
            } else {
                ""@
            },
        ),
        ("CONTENT_LENGTH"@, decimal(body_len)),
        ("SCRIPT_NAME"@, script_name(base, s.path)),
        ("SCRIPT_FILENAME"@, s.path),
        ("PATH_INFO"@, s.path_info),
        ("PATH_TRANSLATED"@, s.path_translated),
        (
            "SERVER_NAME"@,
            match opts.fqdn {
                Some(f) => f,
                None => "localhost"@,
            },
        ),
        ("SERVER_PORT"@, decimal(opts.port as int)),
        ("SERVER_PROTOCOL"@, q.version),
        ("SERVER_SOFTWARE"@, "cashttpd/"@ + VERSION@),
        ("GATEWAY_INTERFACE"@, "CGI/1.1"@),
        ("REMOTE_ADDR"@, client_parts(client).0),
        ("REMOTE_PORT"@, client_parts(client).1),
        ("DOCUMENT_ROOT"@, base),
    ];
    if opts.tls_enabled {
        list.push(("HTTPS"@, "on"@))
    } else {
        list
    }
}

/// The variables that a script is run with, the later ones over the earlier.
pub fn script_environment(
    base_dir: &str,
    script: &Script,
    request: &Request,
    opts: &Resolved,
    body_len: u64,
    client: &str,
) -> (r: Vec<(String, String)>)
    ensures
        r.deep_view() == header_variables(
            fixed_variables(
                base_dir@,
                script.deep_view(),
                request@,
                opts@,
                body_len as int,
                client@,
            ),
            pairs_of(request.headers@),
        ),
{
    let query = after_char(request.path.as_str(), '?');
    let content_type = request.headers.get_or("content-type", "");
    let mut name = "/".to_owned();
    let rel = relative_to(base_dir, script.path.as_str());
    name.append(replaced(rel.as_str(), '\\', "/").as_str());
    let server = match &opts.fqdn {
        Some(f) => f.clone(),
        None => "localhost".to_owned(),
    };
    let mut software = "cashttpd/".to_owned();
    software.append(VERSION);
    let (addr, port) = match rsplit_once_at(client, ':') {
        Some(p) => p,
        None => (client.to_owned(), "".to_owned()),
    };
    let mut v = one_field("REQUEST_METHOD", request.method.as_str());
    add_field(&mut v, "QUERY_STRING", query.as_str());
    add_field(&mut v, "CONTENT_TYPE", content_type.as_str());
    add_field(&mut v, "CONTENT_LENGTH", decimal_of(body_len).as_str());
    add_field(&mut v, "SCRIPT_NAME", name.as_str());
    add_field(&mut v, "SCRIPT_FILENAME", script.path.as_str());
    add_field(&mut v, "PATH_INFO", script.path_info.as_str());
    add_field(&mut v, "PATH_TRANSLATED", script.path_translated.as_str());
    add_field(&mut v, "SERVER_NAME", server.as_str());
    add_field(&mut v, "SERVER_PORT", decimal_of(opts.port as u64).as_str());
    add_field(&mut v, "SERVER_PROTOCOL", request.version.as_str());
    add_field(&mut v, "SERVER_SOFTWARE", software.as_str());
    add_field(&mut v, "GATEWAY_INTERFACE", "CGI/1.1");
    add_field(&mut v, "REMOTE_ADDR", addr.as_str());
    add_field(&mut v, "REMOTE_PORT", port.as_str());
    add_field(&mut v, "DOCUMENT_ROOT", base_dir);
    if opts.tls_enabled {
        add_field(&mut v, "HTTPS", "on");
    }
    let ghost start = v.deep_view();
    assert(start =~= fixed_variables(
        base_dir@,
        script.deep_view(),
        request@,
        opts@,
        body_len as int,
        client@,
    ));
    let n: usize = request.headers.len();
    let ghost p = request.headers.pairs();
    let mut i: usize = 0;
    assert(p.take(0) =~= Seq::empty());
    while i < n
        invariant
            i <= n,
            n == p.len(),
            p == request.headers.pairs(),
            v.deep_view() == header_variables(start, p.take(i as int)),
        decreases n - i,
    {
        assert(p.take(i + 1).drop_last() =~= p.take(i as int));
        let k = request.headers.key_at(i);
        if !(eq_ignore_case(k.as_str(), "content-type") || eq_ignore_case(
            k.as_str(),
            "content-length",
        )) {
            let mut var = "HTTP_".to_owned();
            let up = uppered(k.as_str());
            var.append(replaced(up.as_str(), '-', "_").as_str());
            add_field(&mut v, var.as_str(), request.headers.value_at(i).as_str());
        }
        i = i + 1;
    }
    assert(p.take(n as int) =~= p);
    v
}

/// The directory that a script is run in.
pub open spec fn working_dir(base: Seq<char>, path: Seq<char>) -> Seq<char> {
    match parent(path) {
        Some(p) => p,
        None => base,
    }
}

/// The directory that a script is run in.
pub fn script_dir(base_dir: &str, path: &str) -> (r: String)
    ensures
        r@ == working_dir(base_dir@, path@),
{
    match parent_of(path) {
        Some(p) => p,
        None => base_dir.to_owned(),
    }
}

// ---------------------------------------------------------------------------
// The output of a script
// ---------------------------------------------------------------------------

/// Where bytes first stand in others, from a place on.
pub open spec fn found_from(h: Seq<u8>, n: Seq<u8>, i: int) -> Option<int>
    decreases h.len() + 1 - i,
{
    if i < 0 || i + n.len() > h.len() {
        None
    } else if h.subrange(i, i + n.len()) == n {
        Some(i)
    } else {
        found_from(h, n, i + 1)
    }
}

fn stands_here(h: &[u8], n: &[u8], i: usize) -> (r: bool)
    requires
        i + n@.len() <= h@.len(),
    ensures
        r == (h@.subrange(i as int, i + n@.len()) == n@),
{
    let m: usize = n.len();
    let total: usize = h.len();
    let ghost part = h@.subrange(i as int, i + n@.len());
    let mut j: usize = 0;
    while j < m
        invariant
            j <= m,
            m == n@.len(),
            total == h@.len(),
            i + m <= total,
            part == h@.subrange(i as int, i + n@.len()),
            forall|x: int| 0 <= x < j ==> part[x] == #[trigger] n@[x],
        decreases m - j,
    {
        assert(part[j as int] == h@[i + j]);
        if h[i + j] != n[j] {
            return false;
        }
        j = j + 1;
    }
    assert(part =~= n@);
    true
}

/// Where bytes first stand in others.
pub fn find_subslice(haystack: &[u8], needle: &[u8]) -> (r: Option<usize>)
    ensures
        match r {
            Some(i) => found_from(haystack@, needle@, 0) == Some(i as int) && i + needle@.len()
                <= haystack@.len(),
            None => found_from(haystack@, needle@, 0) is None,
        },
{
    let total: usize = haystack.len();
    let m: usize = needle.len();
    if m > total {
        return None;
    }
    let last: usize = total - m;
    let mut i: usize = 0;
    loop
        invariant
            i <= last,
            last + m == total,
            total == haystack@.len(),
            m == needle@.len(),
            found_from(haystack@, needle@, 0) == found_from(haystack@, needle@, i as int),
        decreases last - i,
    {
        if stands_here(haystack, needle, i) {
            return Some(i);
        }
        if i == last {
            assert(found_from(haystack@, needle@, i + 1) is None);
            return None;
        }
        i = i + 1;
    }
}

/// Where the header fields of an output end, and where its body starts.
pub open spec fn cgi_split(raw: Seq<u8>) -> Option<(int, int)> {
    match found_from(raw, seq![13u8, 10, 13, 10], 0) {
        Some(i) => Some((i, i + 4)),
        None => match found_from(raw, seq![10u8, 10], 0) {
            Some(i) => Some((i, i + 2)),
            None => None,
        },
    }
}

/// The header fields of lines; none where a line that is not empty is no field.
pub open spec fn cgi_fields(l: Seq<Seq<char>>) -> Option<Seq<(Seq<char>, Seq<char>)>>
    decreases l.len(),
{
    if l.len() == 0 {
        Some(Seq::empty())
    } else {
        let line = trim_end(l.last(), Class::One('\r'));
        match cgi_fields(l.drop_last()) {
            None => None,
            Some(f) => if line.len() == 0 {
                Some(f)
            } else {
                match split_once(line, ':') {
                    Some(p) => Some(f.push((trim(p.0), trim(p.1)))),
                    None => None,
                }
            },
        }
    }
}

/// The header fields of an output, and where its body starts. An output without
/// header fields is all body.
pub open spec fn cgi_parts(raw: Seq<u8>) -> (Seq<(Seq<char>, Seq<char>)>, int) {
    match cgi_split(raw) {
        None => (Seq::empty(), 0),
        Some(s) => match cgi_fields(split(lossy_text(raw.take(s.0)), '\n')) {
            Some(f) => if f.len() == 0 {
                (Seq::empty(), 0)
            } else {
                (f, s.1)
            },
            None => (Seq::empty(), 0),
        },
    }
}

proof fn lemma_fields_stop(l: Seq<Seq<char>>, i: int)
    requires
        0 <= i <= l.len(),
        cgi_fields(l.take(i)) is None,
    ensures
        cgi_fields(l) is None,
    decreases l.len() - i,
{
    if i < l.len() {
        assert(l.take(i + 1).drop_last() =~= l.take(i));
        lemma_fields_stop(l, i + 1);
    } else {
        assert(l.take(i) =~= l);
    }
}

fn parse_cgi_fields(head: &str) -> (r: Option<Vec<(String, String)>>)
    ensures
        r.deep_view() == cgi_fields(split(head@, '\n')),
{
    let pieces = split_at_char(head, '\n');
    let ghost l = pieces.deep_view();
    let n: usize = pieces.len();
    let mut out: Vec<(String, String)> = Vec::new();
    let mut i: usize = 0;
    assert(l.take(0) =~= Seq::empty());
    assert(out.deep_view() =~= Seq::<(Seq<char>, Seq<char>)>::empty());
    while i < n
        invariant
            i <= n,
            n == pieces@.len(),
            l == pieces.deep_view(),
            l == split(head@, '\n'),
            cgi_fields(l.take(i as int)) == Some(out.deep_view()),
        decreases n - i,
    {
        assert(l.take(i + 1).drop_last() =~= l.take(i as int));
        assert(l.take(i + 1).last() == pieces@[i as int]@);
        let line = trim_end_of(pieces[i].as_str(), Class::One('\r'));
        if !line.as_str().is_empty() {
            match split_once_at(line.as_str(), ':') {
                Some(p) => {
                    let k = trimmed(p.0.as_str());
                    let v = trimmed(p.1.as_str());
                    add_field(&mut out, k.as_str(), v.as_str());
                },
                None => {
                    proof {
                        lemma_fields_stop(l, i + 1);
                    }
                    return None;
                },
            }
        }
        i = i + 1;
    }
    assert(l.take(n as int) =~= l);
    Some(out)
}

/// The header fields of an output, and where its body starts.
pub fn parse_cgi_output(raw: &[u8]) -> (r: (Vec<(String, String)>, usize))
    ensures
        (r.0.deep_view(), r.1 as int) == cgi_parts(raw@),
        r.1 <= raw@.len(),
{
    let none: Vec<(String, String)> = Vec::new();
    assert(none.deep_view() =~= Seq::<(Seq<char>, Seq<char>)>::empty());
    let wide: Vec<u8> = vec![13, 10, 13, 10];
    let narrow: Vec<u8> = vec![10, 10];
    assert(wide@ =~= seq![13u8, 10, 13, 10]);
    assert(narrow@ =~= seq![10u8, 10]);
    let total: usize = raw.len();
    assert(total == raw@.len());
    let (end, start): (usize, usize) = match find_subslice(raw, wide.as_slice()) {
        Some(i) => (i, i + 4),
        None => match find_subslice(raw, narrow.as_slice()) {
            Some(i) => (i, i + 2),
            None => {
                return (none, 0);
            },
        },
    };
    let head_bytes = vstd::slice::slice_subrange(raw, 0, end);
    assert(head_bytes@ =~= raw@.take(end as int));
    let head = lossy_string(head_bytes);
    match parse_cgi_fields(head.as_str()) {
        Some(f) => {
            assert(f.deep_view().len() == f@.len());
            if f.len() == 0 {
                (none, 0)
            } else {
                (f, start)
            }
        },
        None => (none, 0),
    }
}

/// The status and the words after it that a `Status` field gives.
pub open spec fn status_field(v: Seq<char>) -> Option<(u16, Seq<char>)> {
    match number16(trim(before(v, ' '))) {
        Some(code) => {
            let rest = trim(after(v, ' '));
            Some(
                (
                    code,
                    if rest.len() > 0 {
                        rest
                    } else {
                        reason(code)
                    },
                ),
            )
        },
        None => None,
    }
}

/// The status that header fields give; the last of several counts.
pub open spec fn cgi_status(f: Seq<(Seq<char>, Seq<char>)>) -> (u16, Seq<char>)
    decreases f.len(),
{
    if f.len() == 0 {
        (200u16, "OK"@)
    } else if same_letters(f.last().0, "status"@) && status_field(f.last().1) is Some {
        status_field(f.last().1)->0
    } else {
        cgi_status(f.drop_last())
    }
}

/// The header fields that are passed on: all but the status.
pub open spec fn cgi_passed(f: Seq<(Seq<char>, Seq<char>)>) -> Seq<(Seq<char>, Seq<char>)>
    decreases f.len(),
{
    if f.len() == 0 {
        Seq::empty()
    } else if same_letters(f.last().0, "status"@) {
        cgi_passed(f.drop_last())
    } else {
        cgi_passed(f.drop_last()).push(f.last())
    }
}

/// Whether header fields give a media type.
pub open spec fn has_type(f: Seq<(Seq<char>, Seq<char>)>) -> bool {
    exists|i: int| 0 <= i < f.len() && same_letters((#[trigger] f[i]).0, "content-type"@)
}

/// The response that an output stands for.
pub open spec fn cgi_answer(raw: Seq<u8>, head_only: bool) -> ResponseView {
    let parts = cgi_parts(raw);
    let passed = cgi_passed(parts.0);
    ResponseView {
        status: cgi_status(parts.0).0,
        reason: cgi_status(parts.0).1,
        body: BodyView::Bytes(raw.skip(parts.1)),
        head_only,
        headers: if has_type(parts.0) {
            passed
        } else {
            passed.push(("Content-Type"@, HTML@))
        },
    }
}

/// The response that an output stands for.
pub fn cgi_response(raw: &[u8], head_only: bool) -> (r: Response)
    ensures
        r@ == cgi_answer(raw@, head_only),
{
    proof {
        reveal_strlit("status");
        reveal_strlit("content-type");
    }
    let (fields, start) = parse_cgi_output(raw);
    let ghost f = fields.deep_view();
    let n: usize = fields.len();
    let mut status: u16 = 200;
    let mut words_after = "OK".to_owned();
    let mut headers: Vec<(String, String)> = Vec::new();
    let mut typed = false;
    let mut i: usize = 0;
    assert(f.take(0) =~= Seq::empty());
    assert(headers.deep_view() =~= Seq::<(Seq<char>, Seq<char>)>::empty());
    while i < n
        invariant
            i <= n,
            n == fields@.len(),
            f == fields.deep_view(),
            (status, words_after@) == cgi_status(f.take(i as int)),
            headers.deep_view() == cgi_passed(f.take(i as int)),
            typed == has_type(f.take(i as int)),
        decreases n - i,
    {
        let ghost t = f.take(i + 1);
        assert(t.drop_last() =~= f.take(i as int));
        assert(t.last() == (fields@[i as int].0@, fields@[i as int].1@));
        proof {
            lemma_has_type(t);
        }
        let k = fields[i].0.as_str();
        let v = fields[i].1.as_str();
        if eq_ignore_case(k, "status") {
            proof {
                reveal_strlit("status");
                reveal_strlit("content-type");
                lemma_status_is_no_type(k@);
            }
            let first = before_char(v, ' ');
            let code_text = trimmed(first.as_str());
            if let Some(code) = parse_u16(code_text.as_str()) {
                status = code;
                let rest = after_char(v, ' ');
                let rest = trimmed(rest.as_str());
                words_after = if rest.as_str().is_empty() {
                    reason_phrase(code).to_owned()
                } else {
                    rest
                };
            }
        } else {
            if eq_ignore_case(k, "content-type") {
                typed = true;
            }
            add_field(&mut headers, k, v);
        }
        i = i + 1;
    }
    assert(f.take(n as int) =~= f);
    if !typed {
        add_field(&mut headers, "Content-Type", HTML);
    }
    let total: usize = raw.len();
    let body_bytes = vstd::slice::slice_subrange(raw, start, total);
    let body = vstd::slice::slice_to_vec(body_bytes);
    assert(body@ =~= raw@.skip(start as int));
    Response { status, reason: words_after, body: Body::Bytes(body), head_only, headers }
}

proof fn lemma_status_is_no_type(k: Seq<char>)
    requires
        same_letters(k, "status"@),
    ensures
        !same_letters(k, "content-type"@),
{
    reveal_strlit("status");
    reveal_strlit("content-type");
    assert(lower(k).len() == k.len());
    assert(lower("status"@).len() == 6);
    assert(lower("content-type"@).len() == 12);
}

proof fn lemma_has_type(f: Seq<(Seq<char>, Seq<char>)>)
    requires
        f.len() > 0,
    ensures
        has_type(f) == (has_type(f.drop_last()) || same_letters(f.last().0, "content-type"@)),
{
    let d = f.drop_last();
    if has_type(d) {
        let i = choose|i: int| 0 <= i < d.len() && same_letters((#[trigger] d[i]).0, "content-type"@);
        assert(f[i] == d[i]);
    }
    if same_letters(f.last().0, "content-type"@) {
        assert(f[f.len() - 1] == f.last());
    }
    if has_type(f) {
        let i = choose|i: int| 0 <= i < f.len() && same_letters((#[trigger] f[i]).0, "content-type"@);
        if i < f.len() - 1 {
            assert(d[i] == f[i]);
        }
    }
}

/// How a program ended.
#[derive(Debug)]
pub enum Exit {
    /// Well.
    Success,
    /// Badly, with a status as text.
    Failure(String),
    /// Nobody knows, for a reason.
    Unknown(String),
}

/// How a program ended.
pub enum ExitView {
    Success,
    Failure(Seq<char>),
    Unknown(Seq<char>),
}

impl View for Exit {
    type V = ExitView;

    open spec fn view(&self) -> ExitView {
        match self {
            Exit::Success => ExitView::Success,
            Exit::Failure(s) => ExitView::Failure(s@),
            Exit::Unknown(s) => ExitView::Unknown(s@),
        }
    }
}

/// What to say of a script that put nothing out.
pub open spec fn silent_detail(program: Seq<char>, exit: ExitView, errors: Seq<u8>) -> Seq<char> {
    match exit {
        ExitView::Success => lossy_text(errors),
        ExitView::Failure(status) => program + " exited with "@ + status + "\n"@ + lossy_text(
            errors,
        ),
        ExitView::Unknown(e) => "failed to wait on "@ + program + ": "@ + e,
    }
}

/// What to say of a script that put nothing out.
pub fn silent_failure(program: &str, exit: &Exit, errors: &[u8]) -> (r: String)
    ensures
        r@ == silent_detail(program@, exit@, errors@),
{
    match exit {
        Exit::Success => lossy_string(errors),
        Exit::Failure(status) => {
            let mut d = program.to_owned();
            d.append(" exited with ");
            d.append(status.as_str());
            d.append("\n");
            d.append(lossy_string(errors).as_str());
            d
        },
        Exit::Unknown(e) => {
            let mut d = "failed to wait on ".to_owned();
            d.append(program);
            d.append(": ");
            d.append(e.as_str());
            d
        },
    }
}

/// What to say of a program that cannot be started.
pub fn start_failure(program: &str, error: &str) -> (r: String)
    ensures
        r@ == "failed to start "@ + program@ + ": "@ + error@,
{
    let mut d = "failed to start ".to_owned();
    d.append(program);
    d.append(": ");
    d.append(error);
    d
}

/// The response to a request whose script failed. What went wrong is told in
/// debug mode alone.
pub fn respond_script_failure(request: &Request, debug: bool, detail: &str) -> (r: Response)
    ensures
        r@ == page_response(
            500,
            reason(500),
            error_html(500, request@, debug, Some(detail@)),
            request@.method == "HEAD"@,
        ),
{
    let page = error_page_with_trace(500, request, debug, Some(detail));
    respond_page(500, reason_phrase(500), page.as_str(), request.method.as_str().eq("HEAD"))
}

/// The response to a request whose script has no interpreter.
pub fn respond_missing_interpreter(message: &str, head_only: bool) -> (r: Response)
    ensures
        r@ == (ResponseView {
            status: 503,
            reason: "Service Unavailable"@,
            body: BodyView::Bytes(encode_utf8(message@)),
            head_only,
            headers: seq![("Content-Type"@, "text/plain; charset=utf-8"@)],
        }),
{
    Response {
        status: 503,
        reason: "Service Unavailable".to_owned(),
        body: Body::Bytes(bytes_of(message)),
        head_only,
        headers: one_field("Content-Type", "text/plain; charset=utf-8"),
    }
}

/// What a script that ran comes to: a response, or what went wrong where it put
/// nothing out.
pub fn script_outcome(
    program: &str,
    exit: &Exit,
    output: &[u8],
    errors: &[u8],
    head_only: bool,
) -> (r: Result<Response, String>)
    ensures
        match r {
            Ok(a) => output@.len() > 0 && a@ == cgi_answer(output@, head_only),
            Err(d) => output@.len() == 0 && d@ == silent_detail(program@, exit@, errors@),
        },
{
    if output.len() == 0 {
        Err(silent_failure(program, exit, errors))
    } else {
        Ok(cgi_response(output, head_only))
    }
}

/// No status of a script is passed on as a header field, and every response has
/// a media type.
pub proof fn answers_are_well_formed(raw: Seq<u8>, head_only: bool)
    ensures
        ({
            let h = cgi_answer(raw, head_only).headers;
            &&& forall|i: int| 0 <= i < h.len() ==> !same_letters((#[trigger] h[i]).0, "status"@)
            &&& has_type(h)
        }),
{
    let f = cgi_parts(raw).0;
    let h = cgi_answer(raw, head_only).headers;
    lemma_passed_names(f);
    lemma_passed_type(f);
    reveal_strlit("Content-Type");
    reveal_strlit("content-type");
    reveal_strlit("status");
    assert(lower("Content-Type"@) =~= lower("content-type"@));
    assert(lower("Content-Type"@).len() == 12);
    assert(lower("status"@).len() == 6);
    if !has_type(f) {
        assert(h[h.len() - 1] == ("Content-Type"@, HTML@));
    }
}

/// No field that is passed on is the one on the status.
#[verifier::spinoff_prover]
proof fn lemma_passed_names(f: Seq<(Seq<char>, Seq<char>)>)
    ensures
        forall|i: int|
            0 <= i < cgi_passed(f).len() ==> !same_letters(
                (#[trigger] cgi_passed(f)[i]).0,
                "status"@,
            ),
    decreases f.len(),
{
    if f.len() > 0 {
        let q = cgi_passed(f.drop_last());
        lemma_passed_names(f.drop_last());
        if !same_letters(f.last().0, "status"@) {
            let p = cgi_passed(f);
            assert(p == q.push(f.last()));
            assert forall|i: int| 0 <= i < p.len() implies !same_letters(
                (#[trigger] p[i]).0,
                "status"@,
            ) by {
                if i < q.len() {
                    assert(p[i] == q[i]);
                }
            }
        }
    }
}

/// A media type is passed on.
#[verifier::spinoff_prover]
proof fn lemma_passed_type(f: Seq<(Seq<char>, Seq<char>)>)
    ensures
        has_type(f) ==> has_type(cgi_passed(f)),
    decreases f.len(),
{
    if f.len() > 0 {
        let q = cgi_passed(f.drop_last());
        lemma_passed_type(f.drop_last());
        lemma_has_type(f);
        if same_letters(f.last().0, "status"@) {
            lemma_status_is_no_type(f.last().0);
        } else {
            let p = cgi_passed(f);
            assert(p == q.push(f.last()));
            assert(p.drop_last() =~= q);
            lemma_has_type(p);
        }
    }
}

} // verus!
