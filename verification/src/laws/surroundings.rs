//! What pages and reports know of their surroundings.

use vstd::prelude::*;

use crate::configs::resolve::ResolvedView;
use crate::digits::decimal;
use crate::laws::outputs::clients_are_told_apart;
use crate::laws::wording::{lemma_around, lemma_prefixed, lemma_not_prefixed};
use crate::net::{address, is_public, public_addr};
use crate::paths::{components, file_name, is_absolute, under_dir};
use crate::servers::dashboard::{
    cause_detail, handler_row, latest_first, method_rows, path_rows, status_rows, summary,
};
use crate::servers::files::plain_path;
use crate::servers::handle::{decoded_path, proxy_problem, script_problem};
use crate::servers::http::RequestView;
use crate::servers::info::{
    handler_label, issue_label, percentile_of, HandlerType, IssueGroupView, IssueKind,
};
use crate::servers::pages::escaped;
use crate::servers::scripts::header_variable;
use crate::servers::ssi::{
    first_vars, server_vars, virtual_path, wanted, with_fields, LibraryView,
};
use crate::servers::ssi_text::{attribute, expanded};
use crate::servers::lifecycle::{trouble_text, Trouble};
use crate::servers::startup::fallback;
use crate::sorting::{order, order_is_sorted};
use crate::supports::calendar::http_date;
use crate::text::{before, lines, trim_end, trim_start, Class};

verus! {

// ---------------------------------------------------------------------------
// Pages
// ---------------------------------------------------------------------------

/// A page knows the request, the client, the server and itself.
pub proof fn pages_know_the_request(
    path: Seq<char>,
    base: Seq<char>,
    q: RequestView,
    opts: ResolvedView,
    address: Seq<char>,
    port: Seq<char>,
    asked: Seq<char>,
    query: Seq<char>,
)
    requires
        !port.contains(':'),
        !asked.contains('?'),
        q.path == asked + seq!['?'] + query,
    ensures
        ({
            let m = server_vars(path, base, q, opts, address + seq![':'] + port);
            &&& m.contains_key("REQUEST_METHOD"@) && m["REQUEST_METHOD"@] == q.method
            &&& m.contains_key("QUERY_STRING"@) && m["QUERY_STRING"@] == query
            &&& m.contains_key("SERVER_PROTOCOL"@) && m["SERVER_PROTOCOL"@] == q.version
            &&& m.contains_key("SERVER_PORT"@) && m["SERVER_PORT"@] == decimal(opts.port as int)
            &&& m.contains_key("REMOTE_ADDR"@) && m["REMOTE_ADDR"@] == address
            &&& m.contains_key("REMOTE_PORT"@) && m["REMOTE_PORT"@] == port
            &&& m.contains_key("DOCUMENT_ROOT"@) && m["DOCUMENT_ROOT"@] == base
            &&& m.contains_key("SCRIPT_FILENAME"@) && m["SCRIPT_FILENAME"@] == path
            &&& m.contains_key("HTTPS"@) <==> opts.tls_enabled
        }),
{
    lemma_around(asked, '?', query);
    clients_are_told_apart(address, port);
    lemma_variable_names();
}

proof fn lemma_variable_names()
    ensures
        "REQUEST_METHOD"@[0] == 'R' && "REQUEST_METHOD"@[2] == 'Q',
        "QUERY_STRING"@[0] == 'Q',
        "SERVER_PROTOCOL"@[7] == 'P' && "SERVER_PROTOCOL"@[8] == 'R',
        "SERVER_NAME"@[7] == 'N',
        "SERVER_PORT"@[7] == 'P' && "SERVER_PORT"@[8] == 'O',
        "SERVER_SOFTWARE"@[7] == 'S',
        "GATEWAY_INTERFACE"@[0] == 'G',
        "REMOTE_ADDR"@[2] == 'M' && "REMOTE_ADDR"@[7] == 'A',
        "REMOTE_PORT"@[2] == 'M' && "REMOTE_PORT"@[7] == 'P',
        "DOCUMENT_ROOT"@[0] == 'D',
        "SCRIPT_FILENAME"@[1] == 'C',
        "HTTPS"@[0] == 'H',
        "SERVER_PROTOCOL"@[0] == 'S' && "SERVER_NAME"@[0] == 'S' && "SERVER_PORT"@[0] == 'S'
            && "SERVER_SOFTWARE"@[0] == 'S' && "SCRIPT_FILENAME"@[0] == 'S',
        "SERVER_PROTOCOL"@[1] == 'E' && "SERVER_NAME"@[1] == 'E' && "SERVER_PORT"@[1] == 'E'
            && "SERVER_SOFTWARE"@[1] == 'E',
        "REMOTE_ADDR"@[0] == 'R' && "REMOTE_PORT"@[0] == 'R',
{
    reveal_strlit("REQUEST_METHOD");
    reveal_strlit("QUERY_STRING");
    reveal_strlit("SERVER_PROTOCOL");
    reveal_strlit("SERVER_NAME");
    reveal_strlit("SERVER_PORT");
    reveal_strlit("SERVER_SOFTWARE");
    reveal_strlit("GATEWAY_INTERFACE");
    reveal_strlit("REMOTE_ADDR");
    reveal_strlit("REMOTE_PORT");
    reveal_strlit("DOCUMENT_ROOT");
    reveal_strlit("SCRIPT_FILENAME");
    reveal_strlit("HTTPS");
}

/// A page takes other files in by their path on the site, or by their path from its own
/// directory, which may not lead out of it; and not by both.
pub proof fn files_are_named_in_two_ways(
    l: LibraryView,
    a: Seq<(Seq<char>, Seq<char>)>,
    dir: Seq<char>,
    vars: Map<Seq<char>, Seq<char>>,
    v: Seq<char>,
    f: Seq<char>,
)
    ensures
        attribute(a, 0, "virtual"@) == Some(v) && attribute(a, 0, "file"@) == Some(f) ==> wanted(
            l,
            a,
            dir,
            vars,
        ) is None,
        attribute(a, 0, "virtual"@) is None && attribute(a, 0, "file"@) is None ==> wanted(
            l,
            a,
            dir,
            vars,
        ) is None,
        attribute(a, 0, "virtual"@) == Some(v) && attribute(a, 0, "file"@) is None ==> wanted(
            l,
            a,
            dir,
            vars,
        ) == Some(virtual_path(l, expanded(v, 0, vars), dir)),
        attribute(a, 0, "virtual"@) is None && attribute(a, 0, "file"@) == Some(f) && is_absolute(
            expanded(f, 0, vars),
        ) ==> wanted(l, a, dir, vars) is None,
        attribute(a, 0, "virtual"@) is None && attribute(a, 0, "file"@) == Some(f) && components(
            expanded(f, 0, vars),
        ).contains(".."@) ==> wanted(l, a, dir, vars) is None,
        attribute(a, 0, "virtual"@) is None && attribute(a, 0, "file"@) == Some(f) && !is_absolute(
            expanded(f, 0, vars),
        ) && !components(expanded(f, 0, vars)).contains(".."@) ==> wanted(l, a, dir, vars) == Some(
            under_dir(dir, expanded(f, 0, vars)),
        ),
{
}

/// A path on the site that starts with a slash is seen from the root of the site, another
/// from the directory of the page; and a query does not count.
pub proof fn paths_are_seen_from_root_or_page(
    l: LibraryView,
    target: Seq<char>,
    rest: Seq<char>,
    query: Seq<char>,
    dir: Seq<char>,
)
    requires
        !target.contains('?'),
    ensures
        plain_path(target) == seq!['/'] + rest ==> virtual_path(l, target + seq!['?'] + query, dir)
            == under_dir(l.root, rest),
        plain_path(target).len() > 0 && plain_path(target)[0] != '/' ==> virtual_path(
            l,
            target + seq!['?'] + query,
            dir,
        ) == under_dir(dir, plain_path(target)),
{
    lemma_around(target, '?', query);
    reveal_strlit("/");
    assert("/"@ =~= seq!['/']);
    if plain_path(target) == seq!['/'] + rest {
        lemma_prefixed("/"@, rest);
    } else if plain_path(target).len() > 0 && plain_path(target)[0] != '/' {
        lemma_not_prefixed("/"@, plain_path(target));
    }
}

// ---------------------------------------------------------------------------
// Reports
// ---------------------------------------------------------------------------

/// A failure of the development server is a problem from status 400 on.
pub proof fn failures_are_problems(
    q: RequestView,
    upstream: Seq<char>,
    status: u16,
    path: Seq<char>,
    cause: Seq<char>,
)
    ensures
        status < 400 ==> proxy_problem(q, upstream, status) is None,
        status >= 400 ==> proxy_problem(q, upstream, status) is Some,
        status >= 400 ==> ({
            let p = proxy_problem(q, upstream, status)->0;
            &&& p.kind == IssueKind::FrameworkProxyError
            &&& p.path == decoded_path(q)
            &&& p.target == upstream
            &&& p.status == status
            &&& p.cause == "upstream returned status "@ + decimal(status as int)
        }),
        script_problem(q, path, cause, true).kind == IssueKind::MissingInterpreter,
        script_problem(q, path, cause, true).status == 503,
        script_problem(q, path, cause, false).kind == IssueKind::ScriptFailure,
        script_problem(q, path, cause, false).status == 500,
        script_problem(q, path, cause, false).target == path,
        script_problem(q, path, cause, false).cause == cause,
{
}

/// What answered a request, and what went wrong, in words.
pub proof fn kinds_have_names()
    ensures
        handler_label(HandlerType::StaticFile) == "static file"@,
        handler_label(HandlerType::DirectoryListing) == "directory listing"@,
        handler_label(HandlerType::ScriptCgi) == "script/CGI"@,
        handler_label(HandlerType::CgiBin) == "cgi-bin/"@,
        handler_label(HandlerType::FrameworkProxy) == "framework proxy"@,
        handler_label(HandlerType::HtaccessDenied) == ".htaccess-denied"@,
        issue_label(IssueKind::BrokenStaticRef) == "broken static reference"@,
        issue_label(IssueKind::ScriptFailure) == "script/CGI failure"@,
        issue_label(IssueKind::MissingInterpreter) == "missing interpreter"@,
        issue_label(IssueKind::MissingLanguageModule) == "missing language module"@,
        issue_label(IssueKind::FrameworkProxyError) == "framework proxy error"@,
        issue_label(IssueKind::AccessControlDenial) == "access-control denial"@,
        issue_label(IssueKind::TlsIssue) == "TLS/certificate issue"@,
        issue_label(IssueKind::ConfigReloadIssue) == "config reload issue"@,
{
}

/// The least and the greatest of some times are told by the shares of none and of all.
pub proof fn shares_lie_between_least_and_greatest(s: Seq<u64>, k: int)
    requires
        0 <= k < s.len(),
    ensures
        percentile_of(s, 0) <= s[k],
        s[k] <= percentile_of(s, 100),
        percentile_of(Seq::empty(), 50) == 0,
{
    let keys = s.map_values(|x: u64| x as int);
    order_is_sorted(keys);
    let o = order(keys);
    let n = s.len() as int;
    crate::laws::running::ranks_go_from_least_to_greatest(n);
    lemma_all_placed(keys, k);
    let i = choose|i: int| 0 <= i < o.len() && o[i] == k;
    assert(keys[k] == s[k]);
    assert(keys[o[0]] == s[o[0]]);
    assert(keys[o[n - 1]] == s[o[n - 1]]);
    if i > 0 {
        assert(crate::sorting::may_precede(keys, o[0], o[i]));
    }
    if i < n - 1 {
        assert(crate::sorting::may_precede(keys, o[i], o[n - 1]));
    }
}

proof fn lemma_all_placed(keys: Seq<int>, k: int)
    requires
        0 <= k < keys.len(),
    ensures
        order(keys).contains(k),
{
    lemma_placed_to(keys, keys.len() as int, k);
}

proof fn lemma_placed_to(keys: Seq<int>, n: int, k: int)
    requires
        0 <= k < n <= keys.len(),
    ensures
        crate::sorting::order_to(keys, n).contains(k),
    decreases n,
{
    let o = crate::sorting::order_to(keys, n - 1);
    if k < n - 1 {
        lemma_placed_to(keys, n - 1, k);
    }
    lemma_place_keeps(o, keys, n - 1, k);
}

proof fn lemma_place_keeps(o: Seq<int>, keys: Seq<int>, x: int, k: int)
    requires
        o.contains(k) || k == x,
    ensures
        crate::sorting::place(o, keys, x).contains(k),
    decreases o.len(),
{
    let p = crate::sorting::place(o, keys, x);
    if o.len() == 0 || keys[o.last()] <= keys[x] {
        if k == x {
            assert(p[o.len() as int] == k);
        } else {
            let i = choose|i: int| 0 <= i < o.len() && o[i] == k;
            assert(p[i] == k);
        }
    } else {
        let d = o.drop_last();
        if k == x {
            lemma_place_keeps(d, keys, x, k);
            let i = choose|i: int|
                0 <= i < crate::sorting::place(d, keys, x).len() && crate::sorting::place(
                    d,
                    keys,
                    x,
                )[i] == k;
            assert(p[i] == k);
        } else if o.last() == k {
            assert(p[p.len() - 1] == k);
        } else {
            let j = choose|j: int| 0 <= j < o.len() && o[j] == k;
            assert(d[j] == k);
            lemma_place_keeps(d, keys, x, k);
            let i = choose|i: int|
                0 <= i < crate::sorting::place(d, keys, x).len() && crate::sorting::place(
                    d,
                    keys,
                    x,
                )[i] == k;
            assert(p[i] == k);
        }
    }
}

/// A problem is summed up by the first line of its cause; the whole of it is shown as it
/// stands where it comes from a script.
pub proof fn causes_are_summed_up(cause: Seq<char>)
    ensures
        lines(cause).len() > 0 ==> summary(cause) == lines(cause)[0],
        cause_detail(IssueKind::ScriptFailure, cause) == "<pre>"@ + escaped(cause) + "</pre>"@,
        cause_detail(IssueKind::MissingLanguageModule, cause) == "<pre>"@ + escaped(cause)
            + "</pre>"@,
        cause_detail(IssueKind::BrokenStaticRef, cause) == escaped(cause),
        cause_detail(IssueKind::TlsIssue, cause) == escaped(cause),
{
}

/// What goes wrong with a client is told with its address.
pub proof fn troubles_are_told(client: Seq<char>, cause: Seq<char>)
    ensures
        trouble_text(Trouble::Session, client, cause) == "TLS session setup failed for "@ + client
            + seq![':', ' '] + cause,
        trouble_text(Trouble::Connection, client, cause) == "connection error from "@ + client
            + seq![':', ' '] + cause,
        trouble_text(Trouble::Accept, client, cause) == "accept error: "@ + cause,
        trouble_text(Trouble::Request, client, cause) == client + " request error: "@ + cause,
{
    reveal_strlit(": ");
    assert(": "@ =~= seq![':', ' ']);
}

/// Without settings the server serves what it was started in, to the machine itself,
/// and leaves the rest as it usually is.
pub proof fn servers_start_without_settings(
    dir: Seq<char>,
    log_dir: Seq<char>,
    os: Seq<char>,
    arch: Seq<char>,
)
    ensures
        ({
            let r = fallback(dir, log_dir, os, arch);
            &&& r.base_dir == dir
            &&& r.listen == "::1"@
            &&& r.port == 8080
            &&& r.log_dir == log_dir
            &&& !r.debug && !r.tls_enabled && !r.directory_listing
            &&& r.fqdn is None
            &&& r.logging_access_format == "combined"@ && r.logging_error_format == "standard"@
            &&& r.logging_access_rotate == "daily"@ && r.logging_error_rotate == "daily"@
            &&& r.logging_access_keep == "30d"@ && r.logging_error_keep == "30d"@
            &&& r.ssi_extensions == seq![".shtml"@]
        }),
{
}

/// An address is public with or without brackets around it.
pub proof fn brackets_do_not_matter(s: Seq<char>)
    requires
        s.len() > 0,
        s[0] != '[',
        s.last() != ']',
    ensures
        public_addr(seq!['['] + s + seq![']']) == public_addr(s),
        address(s) is None ==> !public_addr(s),
        address(s) is Some ==> public_addr(s) == is_public(address(s)->0),
{
    let b = seq!['['] + s + seq![']'];
    assert(b.skip(1) =~= s + seq![']']);
    assert(b[0] == '[');
    assert((s + seq![']'])[0] == s[0]);
    assert(trim_start(b, Class::One('[')) == trim_start(b.skip(1), Class::One('[')));
    assert(trim_start(s + seq![']'], Class::One('[')) == s + seq![']']);
    crate::laws::wording::lemma_trim_back(s, seq![']'], Class::One(']'));
    assert(trim_end(s, Class::One(']')) == s);
    assert(trim_start(s, Class::One('[')) == s);
}


/// A page knows its own name and when it was last changed, and every header field of the
/// request under the name that scripts know it by.
pub proof fn pages_know_themselves(
    path: Seq<char>,
    base: Seq<char>,
    q: RequestView,
    opts: ResolvedView,
    client: Seq<char>,
    modified: u64,
    now: u64,
    name: Seq<char>,
    m: Map<Seq<char>, Seq<char>>,
    p: Seq<(Seq<char>, Seq<char>)>,
    field: Seq<char>,
    value: Seq<char>,
)
    requires
        file_name(path) == Some(name),
    ensures
        ({
            let v = first_vars(path, base, q, opts, client, modified, now);
            &&& v.contains_key("DOCUMENT_NAME"@) && v["DOCUMENT_NAME"@] == name
            &&& v.contains_key("DOCUMENT_URI"@) && v["DOCUMENT_URI"@] == plain_path(
                before(q.path, '?'),
            )
            &&& v.contains_key("LAST_MODIFIED"@) && v["LAST_MODIFIED"@] == http_date(
                modified as int,
            )
            &&& v.contains_key("DATE_GMT"@) && v["DATE_GMT"@] == http_date(now as int)
            &&& v.contains_key("DATE_LOCAL"@) && v["DATE_LOCAL"@] == http_date(now as int)
        }),
        with_fields(m, p.push((field, value))) == with_fields(m, p).insert(
            header_variable(field),
            value,
        ),
        with_fields(m, Seq::empty()) == m,
{
    reveal_strlit("DOCUMENT_NAME");
    reveal_strlit("DOCUMENT_URI");
    reveal_strlit("LAST_MODIFIED");
    reveal_strlit("DATE_GMT");
    reveal_strlit("DATE_LOCAL");
    assert("DOCUMENT_NAME"@[1] == 'O' && "DOCUMENT_NAME"@[9] == 'N');
    assert("DOCUMENT_URI"@[1] == 'O' && "DOCUMENT_URI"@[9] == 'U');
    assert("LAST_MODIFIED"@[0] == 'L' && "DOCUMENT_NAME"@[0] == 'D' && "DOCUMENT_URI"@[0] == 'D');
    assert("DATE_GMT"@[0] == 'D' && "DATE_GMT"@[1] == 'A' && "DATE_GMT"@[5] == 'G');
    assert("DATE_LOCAL"@[0] == 'D' && "DATE_LOCAL"@[1] == 'A' && "DATE_LOCAL"@[5] == 'L');
    assert(p.push((field, value)).drop_last() =~= p);
}

/// Problems are shown with the latest first.
pub proof fn the_latest_problems_come_first(g: Seq<IssueGroupView>, i: int, j: int)
    requires
        0 <= i < j < g.len(),
    ensures
        latest_first(g).len() == g.len(),
        0 <= latest_first(g)[i] < g.len() && 0 <= latest_first(g)[j] < g.len(),
        g[latest_first(g)[i]].last_seen >= g[latest_first(g)[j]].last_seen,
{
    let keys = g.map_values(|e: IssueGroupView| -(e.last_seen as int));
    order_is_sorted(keys);
    let o = order(keys);
    assert(crate::sorting::may_precede(keys, o[i], o[j]));
    assert(keys[o[i]] == -(g[o[i]].last_seen as int));
    assert(keys[o[j]] == -(g[o[j]].last_seen as int));
}

/// Counts are shown in a row each; and a handler that answered nothing has none.
pub proof fn counts_are_shown_in_rows(
    p: Seq<(Seq<char>, u64)>,
    q: Seq<(u64, u64)>,
    name: Seq<char>,
    code: u64,
    n: u64,
    h: HandlerType,
)
    ensures
        method_rows(p.push((name, n))) == method_rows(p) + "<tr><td>"@ + escaped(name)
            + "</td><td>"@ + decimal(n as int) + "</td></tr>"@,
        path_rows(p.push((name, n))) == path_rows(p) + "<tr><td><code>"@ + escaped(name)
            + "</code></td><td>"@ + decimal(n as int) + "</td></tr>"@,
        status_rows(q.push((code, n))) == status_rows(q) + "<tr><td>"@ + decimal(code as int)
            + "</td><td>"@ + decimal(n as int) + "</td></tr>"@,
        handler_row(h, None) == Seq::<char>::empty(),
{
    reveal_strlit("");
    assert(p.push((name, n)).drop_last() =~= p);
    assert(q.push((code, n)).drop_last() =~= q);
}

} // verus!
