//! What is answered for a path.

use vstd::prelude::*;

use crate::configs::resolve::ResolvedView;
use crate::digits::{decimal, hex};
use crate::laws::wording::{lemma_lacking, lemma_prefixed};
use crate::outside::mime_essence;
use crate::paths::{extension, in_top_dir, under_dir, within};
use crate::servers::cascade::{client_allowed, document, user_authorized};
use crate::servers::files::{
    document_path, escape_value, failure, file_response, hex_digit, media_type, names_ht, range_in,
    unescaped, wanted_document, FileFacts, FoundView,
};
use crate::servers::handle::{
    challenge_response, decision, decoded_path, first_index, index_paths, realm, subject, user_of,
    ActView, QuestionView, Scene,
};
use crate::servers::htaccess::RulesView;
use crate::servers::info::{HandlerType, IssueKind};
use crate::servers::http::{BodyView, RequestView};
use crate::servers::lookup::candidate;
use crate::servers::pages::{error_response, reason};
use crate::servers::rewrite::{outcome, RewriteOutcomeView};
use crate::servers::scripts::{
    client_parts, first_script, route_of, script_handler, ScriptRouteView,
};
use crate::servers::ssi::has_directives;
use crate::supports::calendar::http_date;
use crate::text::{
    lemma_split_joined, lower, same_letters, split, starts_with, trim_start, Class,
};

verus! {

// ---------------------------------------------------------------------------
// Paths
// ---------------------------------------------------------------------------

/// The byte of a hexadecimal digit, in capitals or not.
pub open spec fn is_hex_of(b: u8, v: int) -> bool {
    ||| 0 <= v < 10 && b == 48 + v
    ||| 10 <= v < 16 && b == 87 + v
    ||| 10 <= v < 16 && b == 55 + v
}

proof fn lemma_unescaped_skip(a: Seq<u8>, b: Seq<u8>, i: int)
    requires
        0 <= i <= b.len(),
    ensures
        unescaped(a + b, a.len() + i) == unescaped(b, i),
    decreases b.len() - i,
{
    let s = a + b;
    let k = a.len() + i;
    if i < b.len() {
        assert(s[k] == b[i]);
        if i + 2 < b.len() {
            assert(s[k + 1] == b[i + 1]);
            assert(s[k + 2] == b[i + 2]);
            lemma_unescaped_skip(a, b, i + 3);
        }
        lemma_unescaped_skip(a, b, i + 1);
    }
}

/// A percent sign with two hexadecimal digits stands for the byte of that value, and
/// every other byte for itself.
pub proof fn escapes_stand_for_bytes(v: u8, high: u8, low: u8, other: u8, rest: Seq<u8>)
    requires
        is_hex_of(high, v as int / 16),
        is_hex_of(low, v as int % 16),
        other != 37,
    ensures
        unescaped(seq![37u8, high, low] + rest, 0) == seq![v] + unescaped(rest, 0),
        unescaped(seq![other] + rest, 0) == seq![other] + unescaped(rest, 0),
{
    let e = seq![37u8, high, low];
    let s = e + rest;
    assert(s[0] == 37 && s[1] == high && s[2] == low);
    assert((high as char) as u32 == high as u32);
    assert((low as char) as u32 == low as u32);
    assert(hex_digit(high) == Some(v as int / 16));
    assert(hex_digit(low) == Some(v as int % 16));
    assert(escape_value(high, low) == Some(v as int));
    lemma_unescaped_skip(e, rest, 0);
    let o = seq![other];
    assert((o + rest)[0] == other);
    lemma_unescaped_skip(o, rest, 0);
}

/// A path with a name that starts with `.ht`, wherever it stands, is one that nobody
/// gets to see.
pub proof fn hidden_names_are_known(above: Seq<char>, name: Seq<char>, below: Seq<char>)
    requires
        name.len() > 0,
        !name.contains('/'),
    ensures
        names_ht(above + seq!['/'] + (".ht"@ + name)),
        names_ht(above + seq!['/'] + (".ht"@ + name + seq!['/'] + below)),
{
    reveal_strlit(".ht");
    let h = ".ht"@ + name;
    assert(!h.contains('/')) by {
        if h.contains('/') {
            let i = choose|i: int| 0 <= i < h.len() && h[i] == '/';
            assert(i >= 3);
            assert(name[i - 3] == '/');
            assert(name.contains('/'));
        }
    }
    lemma_lacking(h, '/');
    lemma_prefixed(".ht"@, name);
    lemma_split_joined(above, '/', h);
    let a = split(above, '/');
    let s = split(above + seq!['/'] + h, '/');
    assert(s == a + seq![h]);
    assert(s[a.len() as int] == h);
    assert(names_ht(above + seq!['/'] + h));
    lemma_split_joined(h, '/', below);
    let hb = h + seq!['/'] + below;
    lemma_split_joined(above, '/', hb);
    let t = split(above + seq!['/'] + hb, '/');
    assert(t == a + (seq![h] + split(below, '/')));
    assert(t[a.len() as int] == h);
    assert(names_ht(above + seq!['/'] + hb));
}

/// Other paths are not.
pub proof fn other_names_are_seen(path: Seq<char>)
    requires
        forall|i: int|
            0 <= i < split(path, '/').len() ==> !starts_with(#[trigger] split(path, '/')[i], ".ht"@),
    ensures
        !names_ht(path),
{
}

// ---------------------------------------------------------------------------
// Files
// ---------------------------------------------------------------------------

/// The tag of a file: its length and the time of its last change, in hexadecimal.
pub open spec fn tag(f: FileFacts) -> Seq<char> {
    seq!['"'] + hex(f.len as int) + seq!['-'] + hex(f.modified as int) + seq!['"']
}

proof fn lemma_tag(f: FileFacts)
    ensures
        crate::servers::files::etag(f.len as int, f.modified as int) == tag(f),
{
    reveal_strlit("\"");
    reveal_strlit("-");
    assert("\""@ =~= seq!['"']);
    assert("-"@ =~= seq!['-']);
}

/// A client that has a file as it is now gets told so. The tag counts where it names
/// one; otherwise the time of the last change.
pub proof fn clients_keep_what_they_have(
    path: Seq<char>,
    f: FileFacts,
    q: RequestView,
    opts: ResolvedView,
)
    ensures
        q.headers.contains_key("if-none-match"@) && q.headers["if-none-match"@] == tag(f)
            ==> file_response(path, Some(f), q, opts).status == 304,
        q.headers.contains_key("if-none-match"@) && q.headers["if-none-match"@] != tag(f)
            ==> file_response(path, Some(f), q, opts).status != 304,
        !q.headers.contains_key("if-none-match"@) && q.headers.contains_key("if-modified-since"@)
            && q.headers["if-modified-since"@] == http_date(f.modified as int) ==> file_response(
            path,
            Some(f),
            q,
            opts,
        ).status == 304,
        !q.headers.contains_key("if-none-match"@) && q.headers.contains_key("if-modified-since"@)
            && q.headers["if-modified-since"@] != http_date(f.modified as int) ==> file_response(
            path,
            Some(f),
            q,
            opts,
        ).status != 304,
        !q.headers.contains_key("if-none-match"@) && !q.headers.contains_key("if-modified-since"@)
            ==> file_response(path, Some(f), q, opts).status != 304,
        file_response(path, Some(f), q, opts).status == 304 ==> file_response(
            path,
            Some(f),
            q,
            opts,
        ).body == BodyView::Bytes(Seq::empty()),
{
    lemma_tag(f);
}

/// Whether a request names nothing that could make its answer a special one.
pub open spec fn is_simple(q: RequestView) -> bool {
    !q.headers.contains_key("if-none-match"@) && !q.headers.contains_key("if-modified-since"@)
}

/// A file is sent whole with status 200 where no range is asked for, without its body
/// for `HEAD`; and what is not there is not found.
pub proof fn files_are_sent(path: Seq<char>, f: FileFacts, q: RequestView, opts: ResolvedView)
    requires
        is_simple(q),
        !q.headers.contains_key("range"@),
    ensures
        ({
            let r = file_response(path, Some(f), q, opts);
            &&& r.status == 200
            &&& r.reason == "OK"@
            &&& q.method == "HEAD"@ ==> r.head_only && r.body == BodyView::Bytes(Seq::empty())
            &&& q.method != "HEAD"@ ==> !r.head_only && r.body == BodyView::File
            &&& r.headers.len() == 4
            &&& r.headers.contains(("ETag"@, tag(f)))
            &&& r.headers.contains(("Last-Modified"@, http_date(f.modified as int)))
            &&& r.headers.contains(("Accept-Ranges"@, "bytes"@))
            &&& r.headers.contains(("Content-Type"@, media_type(path, opts.mime_types)))
        }),
        file_response(path, None, q, opts).status == 404,
{
    lemma_tag(f);
    let h = file_response(path, Some(f), q, opts).headers;
    assert(h[0] == ("ETag"@, tag(f)));
    assert(h[1] == ("Last-Modified"@, http_date(f.modified as int)));
    assert(h[2] == ("Accept-Ranges"@, "bytes"@));
    assert(h[3] == ("Content-Type"@, media_type(path, opts.mime_types)));
}

/// A part of a file is sent with status 206, and says where it stands; and a range
/// outside the file is refused with status 416, and told how long the file is.
pub proof fn parts_are_sent(
    path: Seq<char>,
    f: FileFacts,
    q: RequestView,
    opts: ResolvedView,
    a: u64,
    b: u64,
)
    requires
        is_simple(q),
        q.headers.contains_key("range"@),
    ensures
        range_in(q.headers["range"@], f.len) == Some((a, b)) && a <= b < f.len ==> ({
            let r = file_response(path, Some(f), q, opts);
            &&& r.status == 206
            &&& r.body == BodyView::Part(a, (b - a + 1) as u64)
            &&& r.headers.last() == (
                "Content-Range"@,
                "bytes "@ + decimal(a as int) + seq!['-'] + decimal(b as int) + seq!['/'] + decimal(
                    f.len as int,
                ),
            )
        }),
        range_in(q.headers["range"@], f.len) is None ==> ({
            let r = file_response(path, Some(f), q, opts);
            &&& r.status == 416
            &&& r.body == BodyView::Bytes(Seq::empty())
            &&& r.headers == seq![("Content-Range"@, "bytes */"@ + decimal(f.len as int))]
        }),
{
    reveal_strlit("-");
    reveal_strlit("/");
    assert("-"@ =~= seq!['-']);
    assert("/"@ =~= seq!['/']);
}

/// The kind of a file is what is set for its ending, in letters of any case; otherwise
/// what its ending usually means, with the character set where it is text.
pub proof fn endings_tell_the_kind(
    path: Seq<char>,
    types: Map<Seq<char>, Seq<char>>,
    ending: Seq<char>,
)
    requires
        extension(path) == Some(ending),
    ensures
        types.contains_key(lower(ending)) ==> media_type(path, types) == types[lower(ending)],
        !types.contains_key(lower(ending)) && (starts_with(mime_essence(path), "text/"@)
            || mime_essence(path) == "application/json"@ || mime_essence(path)
            == "application/javascript"@) ==> media_type(path, types) == mime_essence(path)
            + "; charset=utf-8"@,
        !types.contains_key(lower(ending)) && !starts_with(mime_essence(path), "text/"@)
            && mime_essence(path) != "application/json"@ && mime_essence(path)
            != "application/javascript"@ ==> media_type(path, types) == mime_essence(path),
{
}

/// The document for an error: a page elsewhere is led to, a file of the site is sent with
/// the status of the error, and without either there is the usual page.
pub proof fn errors_have_their_documents(
    base: Seq<char>,
    rules: RulesView,
    status: u16,
    file: FoundView,
    q: RequestView,
    opts: ResolvedView,
    target: Seq<char>,
)
    ensures
        document(rules.error_documents, status) == Some(target) && (starts_with(
            target,
            "http://"@,
        ) || starts_with(target, "https://"@)) ==> ({
            let r = failure(base, rules, status, Some(file), q, opts).0;
            &&& r.status == 302
            &&& r.headers == seq![("Location"@, target)]
            &&& wanted_document(base, rules, status) is None
        }),
        document(rules.error_documents, status) == Some(target) && !starts_with(target, "http://"@)
            && !starts_with(target, "https://"@) && within(base, file.path) && file.is_file ==> ({
            let r = failure(base, rules, status, Some(file), q, opts);
            &&& r.0.status == status
            &&& r.0.body == BodyView::File
            &&& r.1 == Some(file.path)
            &&& r.0.headers == seq![("Content-Type"@, media_type(file.path, opts.mime_types))]
        }),
        document(rules.error_documents, status) == Some(target) && !starts_with(target, "http://"@)
            && !starts_with(target, "https://"@) && !(within(base, file.path) && file.is_file)
            ==> failure(base, rules, status, Some(file), q, opts) == (
            error_response(status, q, opts.debug),
            None::<Seq<char>>,
        ),
        document(rules.error_documents, status) is None ==> failure(
            base,
            rules,
            status,
            Some(file),
            q,
            opts,
        ) == (error_response(status, q, opts.debug), None::<Seq<char>>),
{
}

// ---------------------------------------------------------------------------
// Requests
// ---------------------------------------------------------------------------

/// Whether a text is one of seven methods.
pub open spec fn is_method(m: Seq<char>) -> bool {
    ||| m == "GET"@
    ||| m == "HEAD"@
    ||| m == "POST"@
    ||| m == "PUT"@
    ||| m == "DELETE"@
    ||| m == "PATCH"@
    ||| m == "OPTIONS"@
}

/// What is decided before the site is looked at: other methods are refused, names that
/// are hidden are refused, one path shows how the server does, and the paths of another
/// server go there.
pub proof fn some_requests_never_reach_the_site(s: Scene)
    ensures
        !is_method(s.request.method) ==> decision(s).act == ActView::Error(405),
        is_method(s.request.method) && names_ht(decoded_path(s.request)) ==> decision(s).act
            == ActView::Error(403),
        (s.request.method == "GET"@ || s.request.method == "HEAD"@) && decoded_path(s.request)
            == "/server-info"@ && !names_ht("/server-info"@) ==> decision(s).act
            == ActView::Dashboard,
        is_method(s.request.method) && !names_ht(decoded_path(s.request)) && decoded_path(
            s.request,
        ) != "/server-info"@ && s.proxy is Some && starts_with(
            decoded_path(s.request),
            (s.proxy->0).path_prefix,
        ) ==> decision(s).act == ActView::Proxy,
        decision(s).act is Proxy ==> s.proxy is Some && starts_with(
            decoded_path(s.request),
            (s.proxy->0).path_prefix,
        ),
{
}

/// Whether a request is one for the site, whose rules are known.
pub open spec fn is_for_the_site(s: Scene, r: RulesView) -> bool {
    &&& is_method(s.request.method)
    &&& !names_ht(decoded_path(s.request))
    &&& decoded_path(s.request) != "/server-info"@
    &&& s.proxy is None
    &&& s.known.rules == Some(r)
}

/// A redirect is answered as it says; a path that is rewritten is looked up anew, unless
/// it is hidden.
pub proof fn the_site_may_lead_elsewhere(
    s: Scene,
    r: RulesView,
    status: u16,
    target: Seq<char>,
    p: Seq<char>,
)
    requires
        is_for_the_site(s, r),
    ensures
        outcome(r, subject(s, decoded_path(s.request))) == RewriteOutcomeView::Redirect(
            status,
            target,
        ) ==> decision(s).act == ActView::Redirect(status, target),
        outcome(r, subject(s, decoded_path(s.request))) == RewriteOutcomeView::Rewritten(p)
            && names_ht(p) ==> decision(s).act == ActView::Error(403),
        outcome(r, subject(s, decoded_path(s.request))) == RewriteOutcomeView::Rewritten(p)
            && !names_ht(p) && s.known.moved_rules is None ==> decision(s).act == ActView::Ask(
            QuestionView::Rules(p),
        ),
{
}

/// Whether a request is for the path that it names.
pub open spec fn is_for_its_path(s: Scene, r: RulesView) -> bool {
    is_for_the_site(s, r) && outcome(r, subject(s, decoded_path(s.request)))
        == RewriteOutcomeView::Unchanged
}

/// A client that the rules keep out gets status 403. One that has to name a user is
/// asked to until it does; and a user who is not among those required gets status 403.
pub proof fn rules_are_kept(s: Scene, r: RulesView, file: Seq<char>, text: Option<Seq<char>>)
    requires
        is_for_its_path(s, r),
    ensures
        !client_allowed(r, client_parts(s.client).0) ==> decision(s).act == ActView::Document(403),
        client_allowed(r, client_parts(s.client).0) && r.auth_type is Some && same_letters(
            r.auth_type->0,
            "basic"@,
        ) && r.requires.len() > 0 && r.auth_user_file is None ==> decision(s).act
            == ActView::Document(500),
        client_allowed(r, client_parts(s.client).0) && r.auth_type is Some && same_letters(
            r.auth_type->0,
            "basic"@,
        ) && r.requires.len() > 0 && r.auth_user_file == Some(file) && s.known.passwords is None
            ==> decision(s).act == ActView::Ask(QuestionView::Passwords(file)),
        client_allowed(r, client_parts(s.client).0) && r.auth_type is Some && same_letters(
            r.auth_type->0,
            "basic"@,
        ) && r.requires.len() > 0 && r.auth_user_file == Some(file) && s.known.passwords == Some(
            text,
        ) && user_of(s.request, text) is None ==> decision(s).act is Challenge,
        client_allowed(r, client_parts(s.client).0) && r.auth_type is Some && same_letters(
            r.auth_type->0,
            "basic"@,
        ) && r.requires.len() > 0 && r.auth_user_file == Some(file) && s.known.passwords == Some(
            text,
        ) && user_of(s.request, text) is Some && r.auth_group_file is None && !user_authorized(
            r,
            user_of(s.request, text)->0,
            match s.known.groups {
                Some(t) => t,
                None => None,
            },
        ) ==> decision(s).act == ActView::Document(403),
        realm(r) == (if r.auth_name is Some {
            r.auth_name->0
        } else {
            "Restricted"@
        }),
{
}

/// Whether nothing stands between a client and what is there.
pub open spec fn is_open(s: Scene, r: RulesView) -> bool {
    &&& is_for_its_path(s, r)
    &&& client_allowed(r, client_parts(s.client).0)
    &&& r.auth_type is None || r.requires.len() == 0
}

/// Where links are not to be followed, the way is looked at first, and a link on it is
/// refused.
pub proof fn links_are_followed_unless_forbidden(s: Scene, r: RulesView)
    requires
        is_open(s, r),
    ensures
        r.follow_symlinks == Some(false) && s.known.symlink is None ==> (decision(s).act matches
            ActView::Ask(q) && q is Symlinks),
        r.follow_symlinks == Some(false) && s.known.symlink == Some(true) ==> decision(s).act
            == ActView::Document(403),
        r.follow_symlinks != Some(false) && s.known.canonical is None ==> decision(s).act
            == ActView::Ask(QuestionView::Canonical(candidate(s.base, decoded_path(s.request)))),
        r.follow_symlinks == Some(false) && s.known.symlink == Some(false) && s.known.canonical
            is None ==> decision(s).act == ActView::Ask(
            QuestionView::Canonical(candidate(s.base, decoded_path(s.request))),
        ),
{
}

/// Whether a request has come as far as something of the site.
pub open spec fn is_at(s: Scene, r: RulesView, p: Seq<char>) -> bool {
    &&& is_open(s, r)
    &&& r.follow_symlinks != Some(false)
    &&& s.known.canonical == Some(Some(p))
    &&& within(s.base, p)
}

/// A file is a script, or is sent to those who read; others get status 405.
pub proof fn files_are_run_or_sent(s: Scene, r: RulesView, p: Seq<char>)
    requires
        is_at(s, r, p),
        s.known.directory == Some(false),
    ensures
        route_of(s.base, p, s.opts.script_handlers) is Some ==> (decision(s).act matches
            ActView::Run(x) && x.path == p && x.route == route_of(
            s.base,
            p,
            s.opts.script_handlers,
        )->0 && x.path_info == ""@),
        route_of(s.base, p, s.opts.script_handlers) is None && s.request.method != "GET"@
            && s.request.method != "HEAD"@ ==> decision(s).act == ActView::Document(405),
        route_of(s.base, p, s.opts.script_handlers) is None && (s.request.method == "GET"@
            || s.request.method == "HEAD"@) && has_directives(p, s.opts.ssi_extensions)
            ==> decision(s).act == ActView::Render(p),
        route_of(s.base, p, s.opts.script_handlers) is None && (s.request.method == "GET"@
            || s.request.method == "HEAD"@) && !has_directives(p, s.opts.ssi_extensions)
            ==> decision(s).act == ActView::Serve(p),
{
}

/// A file in `cgi-bin` runs by itself. Elsewhere its ending tells, in letters of any
/// case, whether it is run, and by what.
pub proof fn endings_tell_what_runs(
    base: Seq<char>,
    path: Seq<char>,
    handlers: Map<Seq<char>, Option<Seq<char>>>,
    ending: Seq<char>,
    command: Seq<char>,
)
    requires
        extension(path) == Some(ending),
        ending.len() > 0,
    ensures
        in_top_dir(base, path, "cgi-bin"@) ==> route_of(base, path, handlers) == Some(
            ScriptRouteView::ExecDirect,
        ) && script_handler(base, path) == HandlerType::CgiBin,
        !in_top_dir(base, path, "cgi-bin"@) ==> script_handler(base, path)
            == HandlerType::ScriptCgi,
        !in_top_dir(base, path, "cgi-bin"@) && !handlers.contains_key(lower(ending)) ==> route_of(
            base,
            path,
            handlers,
        ) is None,
        !in_top_dir(base, path, "cgi-bin"@) && handlers.contains_key(lower(ending))
            && handlers[lower(ending)] is None ==> route_of(base, path, handlers) is None,
        !in_top_dir(base, path, "cgi-bin"@) && handlers.contains_key(lower(ending))
            && handlers[lower(ending)] == Some(command) && command == "exec"@ ==> route_of(
            base,
            path,
            handlers,
        ) == Some(ScriptRouteView::ExecDirect),
        !in_top_dir(base, path, "cgi-bin"@) && handlers.contains_key(lower(ending))
            && handlers[lower(ending)] == Some(command) && command != "exec"@ && command.len() > 0
            ==> route_of(base, path, handlers) == Some(ScriptRouteView::Interpreter(command)),
{
    reveal_strlit("exec");
}

/// For a directory its index is sent, the first that is there; without one it is listed
/// where that is allowed, by the rules or else by the settings.
pub proof fn directories_have_an_index(s: Scene, r: RulesView, p: Seq<char>, flags: Seq<bool>)
    requires
        is_at(s, r, p),
        s.known.directory == Some(true),
        s.request.method == "GET"@ || s.request.method == "HEAD"@,
    ensures
        s.known.indexes is None && r.directory_index is None ==> decision(s).act == ActView::Ask(
            QuestionView::Indexes(
                seq![under_dir(p, "index.html"@), under_dir(p, "index.htm"@)],
            ),
        ),
        s.known.indexes == Some(flags) && first_index(index_paths(r, p), flags, 0) is None
            && r.indexes == Some(true) ==> decision(s).act == ActView::List(p),
        s.known.indexes == Some(flags) && first_index(index_paths(r, p), flags, 0) is None
            && r.indexes == Some(false) ==> decision(s).act == ActView::Document(403),
        s.known.indexes == Some(flags) && first_index(index_paths(r, p), flags, 0) is None
            && r.indexes is None && s.opts.directory_listing ==> decision(s).act == ActView::List(
            p,
        ),
        s.known.indexes == Some(flags) && first_index(index_paths(r, p), flags, 0) is None
            && r.indexes is None && !s.opts.directory_listing ==> decision(s).act
            == ActView::Document(403),
{
    let two = seq!["index.html"@, "index.htm"@];
    assert(two.map_values(|n: Seq<char>| under_dir(p, n)) =~= seq![
        under_dir(p, "index.html"@),
        under_dir(p, "index.htm"@),
    ]);
}

/// The index is the first of the names that is there.
pub proof fn the_first_index_counts(paths: Seq<Seq<char>>, flags: Seq<bool>, k: int)
    requires
        0 <= k < paths.len(),
        paths.len() == flags.len(),
        flags[k],
        forall|i: int| 0 <= i < k ==> !(#[trigger] flags[i]),
    ensures
        first_index(paths, flags, 0) == Some(paths[k]),
{
    lemma_first_index(paths, flags, k, 0);
}

proof fn lemma_first_index(paths: Seq<Seq<char>>, flags: Seq<bool>, k: int, i: int)
    requires
        0 <= i <= k < paths.len(),
        paths.len() == flags.len(),
        flags[k],
        forall|j: int| 0 <= j < k ==> !(#[trigger] flags[j]),
    ensures
        first_index(paths, flags, i) == Some(paths[k]),
    decreases k - i,
{
    if i < k {
        assert(!flags[i]);
        lemma_first_index(paths, flags, k, i + 1);
    }
}

/// Where none of the names is there, there is no index.
pub proof fn no_index_without_a_file(paths: Seq<Seq<char>>, flags: Seq<bool>, i: int)
    requires
        0 <= i,
        forall|j: int| 0 <= j < flags.len() ==> !(#[trigger] flags[j]),
    ensures
        first_index(paths, flags, i) is None,
    decreases paths.len() - i,
{
    if i < paths.len() {
        no_index_without_a_file(paths, flags, i + 1);
    }
}

/// A page for errors has the status, and is without its body for `HEAD`.
pub proof fn error_pages_have_their_status(status: u16, q: RequestView, debug: bool, name: Seq<char>)
    ensures
        error_response(status, q, debug).status == status,
        error_response(status, q, debug).reason == reason(status),
        error_response(status, q, debug).head_only <==> q.method == "HEAD"@,
        challenge_response(q, debug, name).status == 401,
        challenge_response(q, debug, name).headers.last() == (
            "WWW-Authenticate"@,
            "Basic realm=\""@ + name + "\""@,
        ),
{
}


/// What is refused is noted with its cause, and so is what is not there.
pub proof fn refusals_are_noted(s: Scene, r: RulesView)
    requires
        is_for_its_path(s, r),
    ensures
        !client_allowed(r, client_parts(s.client).0) ==> ({
            let v = decision(s);
            &&& v.handler == Some(HandlerType::HtaccessDenied)
            &&& v.issue is Some
            &&& v.issue->0.kind == IssueKind::AccessControlDenial
            &&& v.issue->0.path == decoded_path(s.request)
            &&& v.issue->0.cause == "denied by Order/Allow/Deny"@
            &&& v.issue->0.status == 403
        }),
        is_open(s, r) && r.follow_symlinks == Some(false) && s.known.symlink == Some(true) ==> ({
            let v = decision(s);
            &&& v.issue is Some
            &&& v.issue->0.cause == "denied by Options -FollowSymLinks"@
            &&& v.issue->0.target == candidate(s.base, decoded_path(s.request))
        }),
        is_open(s, r) && r.follow_symlinks != Some(false) && s.known.canonical == Some(
            None::<Seq<char>>,
        ) && s.known.ancestors is None ==> (decision(s).act matches ActView::Ask(q) && q
            is Ancestors),
        is_open(s, r) && r.follow_symlinks != Some(false) && s.known.canonical == Some(
            None::<Seq<char>>,
        ) && s.known.ancestors is Some && first_script(
            s.base,
            decoded_path(s.request),
            s.opts.script_handlers,
            s.known.ancestors->0,
            0,
        ) is None ==> ({
            let v = decision(s);
            &&& v.act == ActView::Document(404)
            &&& v.issue is Some
            &&& v.issue->0.kind == IssueKind::BrokenStaticRef
            &&& v.issue->0.path == decoded_path(s.request)
            &&& v.issue->0.status == 404
        }),
{
}

/// A document for an error lies below the directory that is served, whether it is named
/// with a slash or without.
pub proof fn documents_lie_on_the_site(base: Seq<char>, rest: Seq<char>)
    requires
        base.len() > 0 && base.last() != '/',
        rest.len() > 0 && rest[0] != '/',
    ensures
        document_path(base, seq!['/'] + rest) == base + seq!['/'] + rest,
        document_path(base, rest) == base + seq!['/'] + rest,
{
    reveal_strlit("/");
    assert("/"@ =~= seq!['/']);
    let one = seq!['/'] + rest;
    assert(one.skip(1) =~= rest);
    assert(one[0] == '/');
    assert(trim_start(rest, Class::One('/')) == rest);
    assert(trim_start(one, Class::One('/')) == trim_start(one.skip(1), Class::One('/')));
}

} // verus!
