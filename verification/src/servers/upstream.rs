//! The exchange with the development server.

use vstd::prelude::*;

use crate::configs::resolve::Resolved;
use crate::digits::{decimal, decimal_of, number, number16, number64, parse_number, parse_u16, parse_u64};
use crate::outside::{
    header_name, header_value_ok, is_field_name, is_field_value, is_method, method_ok, parse_target,
    target_text,
};
use crate::servers::fields::{
    has_field, lemma_without, set_field, with_value, without_field,
};
use crate::servers::http::{
    add_field, bytes_of, field_lines, lines_of_fields, one_field, Body, Request,
    RequestView, Response, ResponseView,
};
use crate::servers::pages::{
    error_html, error_page_with_trace, escaped, html_escape, page_response, respond_page, HTML,
};
use crate::table::{
    lemma_to_map_keys, lemma_to_map_values, listed, pairs_of, Table,
};
use crate::text::{
    before, before_char, contains, contains_str, eq_ignore_case, lower, lowered, rsplit_once,
    rsplit_once_at, same_letters, split_once, split_once_at, trim, trim_end, trim_end_of, trimmed,
    Class,
};

verus! {

// ---------------------------------------------------------------------------
// While it starts
// ---------------------------------------------------------------------------

/// The page that is shown while the server starts, up to the request.
pub const STARTING_HEAD: &'static str =
    "<!doctype html><html><head><meta charset=\"utf-8\"><meta name=\"viewport\" content=\"width=device-width, initial-scale=1\"><meta http-equiv=\"refresh\" content=\"1\"><title>Starting…</title><style>body{font-family:system-ui,sans-serif;margin:0;padding:2rem 1.25rem;background:#0f172a;color:#e2e8f0;min-height:100vh;box-sizing:border-box}.card{max-width:32rem;margin:2rem auto;background:#1e293b;border-radius:.75rem;padding:1.5rem;text-align:center}h1{font-size:1.5rem;margin:0 0 .5rem}.reason{font-size:1rem;color:#94a3b8;margin:0 0 1rem}.spinner{width:2rem;height:2rem;margin:0 auto 1rem;border:.25rem solid #334155;border-top-color:#38bdf8;border-radius:50%;animation:spin 1s linear infinite}@keyframes spin{to{transform:rotate(360deg)}}code{background:#334155;padding:.15rem .4rem;border-radius:.25rem}</style></head><body><div class=\"card\"><div class=\"spinner\"></div><h1>Framework is starting…</h1><p class=\"reason\">The dev server for this project is still coming up. This page refreshes automatically.</p><p><code>";

/// The page that is shown while the server starts.
pub open spec fn starting_html(q: RequestView) -> Seq<char> {
    STARTING_HEAD@ + escaped(q.method) + " "@ + escaped(q.path)
        + "</code></p></div></body></html>"@
}

/// The page that is shown while the server starts. It loads itself again.
pub fn starting_page(request: &Request) -> (r: String)
    ensures
        r@ == starting_html(request@),
{
    let mut out = STARTING_HEAD.to_owned();
    out.append(html_escape(request.method.as_str()).as_str());
    out.append(" ");
    out.append(html_escape(request.path.as_str()).as_str());
    out.append("</code></p></div></body></html>");
    out
}

/// The response while the server starts.
pub open spec fn starting_response(q: RequestView) -> ResponseView {
    let page = page_response(503, "Service Unavailable"@, starting_html(q), q.method == "HEAD"@);
    ResponseView { headers: page.headers.push(("Retry-After"@, "1"@)), ..page }
}

/// The response while the server starts.
pub fn respond_starting(request: &Request) -> (r: Response)
    ensures
        r@ == starting_response(request@),
{
    let page = starting_page(request);
    let mut headers = one_field("Content-Type", HTML);
    add_field(&mut headers, "Retry-After", "1");
    Response {
        status: 503,
        reason: "Service Unavailable".to_owned(),
        body: Body::Bytes(bytes_of(page.as_str())),
        head_only: request.method.as_str().eq("HEAD"),
        headers,
    }
}

// ---------------------------------------------------------------------------
// The request
// ---------------------------------------------------------------------------

/// Whether a request asks to go on as a WebSocket.
pub open spec fn asks_for_websocket(q: RequestView) -> bool {
    q.headers.contains_key("upgrade"@) && same_letters(q.headers["upgrade"@], "websocket"@)
        && q.headers.contains_key("connection"@) && contains(
        lower(q.headers["connection"@]),
        "upgrade"@,
    )
}

/// Whether a request asks to go on as a WebSocket.
pub fn is_websocket(request: &Request) -> (r: bool)
    ensures
        r == asks_for_websocket(request@),
{
    let upgrade = match request.headers.get("upgrade") {
        Some(v) => eq_ignore_case(v.as_str(), "websocket"),
        None => false,
    };
    upgrade && match request.headers.get("connection") {
        Some(v) => contains_str(lowered(v.as_str()).as_str(), "upgrade"),
        None => false,
    }
}

/// The address of a client without its port.
pub open spec fn address_only(client: Seq<char>) -> Seq<char> {
    match rsplit_once(client, ':') {
        Some(p) => p.0,
        None => client,
    }
}

/// The address of a client without its port.
pub fn remote_ip(client: &str) -> (r: String)
    ensures
        r@ == address_only(client@),
{
    match rsplit_once_at(client, ':') {
        Some(p) => p.0,
        None => client.to_owned(),
    }
}

/// Whether a header field of a request speaks of the connection that it came
/// over, and not of the request.
pub open spec fn is_of_connection(name: Seq<char>, websocket: bool) -> bool {
    name == "connection"@ || name == "keep-alive"@ || name == "proxy-authenticate"@ || name
        == "proxy-authorization"@ || name == "proxy-connection"@ || name == "te"@ || name
        == "trailer"@ || name == "transfer-encoding"@ || name == "content-length"@ || (name
        == "upgrade"@ && !websocket)
}

/// Whether a header field of a request speaks of the connection that it came
/// over, and not of the request.
pub fn is_hop_by_hop_request_header(name: &str, is_websocket: bool) -> (r: bool)
    ensures
        r == is_of_connection(name@, is_websocket),
{
    name.eq("connection") || name.eq("keep-alive") || name.eq("proxy-authenticate") || name.eq(
        "proxy-authorization",
    ) || name.eq("proxy-connection") || name.eq("te") || name.eq("trailer") || name.eq(
        "transfer-encoding",
    ) || name.eq("content-length") || (name.eq("upgrade") && !is_websocket)
}

/// The header fields of a request that are handed on.
pub open spec fn handed_on(p: Seq<(Seq<char>, Seq<char>)>, websocket: bool) -> Seq<
    (Seq<char>, Seq<char>),
>
    decreases p.len(),
{
    if p.len() == 0 {
        Seq::empty()
    } else {
        let front = handed_on(p.drop_last(), websocket);
        let f = p.last();
        if is_of_connection(f.0, websocket) || !is_field_name(f.0) || !is_field_value(f.1) {
            front
        } else {
            front.push((lower(f.0), f.1))
        }
    }
}

/// A list that one more hop is added to.
pub open spec fn hops(q: RequestView, name: Seq<char>, last: Seq<char>) -> Seq<char> {
    if q.headers.contains_key(name) {
        q.headers[name] + ", "@ + last
    } else {
        last
    }
}

/// Header fields with one value for a name, if it can be sent.
pub open spec fn with_sendable(
    h: Seq<(Seq<char>, Seq<char>)>,
    name: Seq<char>,
    value: Seq<char>,
) -> Seq<(Seq<char>, Seq<char>)> {
    if is_field_value(value) {
        with_value(h, name, value)
    } else {
        h
    }
}

/// The scheme that a client used.
pub open spec fn scheme(tls: bool) -> Seq<char> {
    if tls {
        "https"@
    } else {
        "http"@
    }
}

/// The connection that the server is asked for.
pub open spec fn connection_field(websocket: bool) -> Seq<char> {
    if websocket {
        "Upgrade"@
    } else {
        "close"@
    }
}

/// The header fields of the request to the server.
pub open spec fn upstream_fields(
    q: RequestView,
    ip: Seq<char>,
    tls: bool,
    websocket: bool,
) -> Seq<(Seq<char>, Seq<char>)> {
    with_value(
        with_sendable(
            with_sendable(
                handed_on(pairs_of(q.headers), websocket),
                "x-forwarded-for"@,
                hops(q, "x-forwarded-for"@, ip),
            ),
            "x-forwarded-proto"@,
            hops(q, "x-forwarded-proto"@, scheme(tls)),
        ),
        "connection"@,
        connection_field(websocket),
    )
}

/// A request to the server.
#[derive(Debug)]
pub struct UpstreamRequest {
    /// The method.
    pub method: String,
    /// What is asked for.
    pub target: String,
    /// The header fields.
    pub headers: Vec<(String, String)>,
}

/// A request to the server.
pub struct UpstreamRequestView {
    pub method: Seq<char>,
    pub target: Seq<char>,
    pub headers: Seq<(Seq<char>, Seq<char>)>,
}

impl View for UpstreamRequest {
    type V = UpstreamRequestView;

    open spec fn view(&self) -> UpstreamRequestView {
        UpstreamRequestView {
            method: self.method@,
            target: self.target@,
            headers: self.headers.deep_view(),
        }
    }
}

/// The request to the server, or what is wrong with that of the client.
pub open spec fn upstream_request(
    q: RequestView,
    target: Result<Seq<char>, Seq<char>>,
    ip: Seq<char>,
    tls: bool,
    websocket: bool,
) -> Result<UpstreamRequestView, Seq<char>> {
    if !is_method(q.method) {
        Err("invalid HTTP method"@)
    } else {
        match target {
            Err(e) => Err(e),
            Ok(t) => Ok(
                UpstreamRequestView {
                    method: q.method,
                    target: t,
                    headers: upstream_fields(q, ip, tls, websocket),
                },
            ),
        }
    }
}

/// A request to the server, by its value, or a message.
pub open spec fn request_view(r: Result<UpstreamRequest, String>) -> Result<
    UpstreamRequestView,
    Seq<char>,
> {
    match r {
        Ok(u) => Ok(u@),
        Err(e) => Err(e@),
    }
}

fn append_hop(headers: &Table<String>, name: &str, last: &str) -> (r: String)
    ensures
        r@ == if headers@.contains_key(name@) {
            headers@[name@] + ", "@ + last@
        } else {
            last@
        },
{
    match headers.get(name) {
        Some(v) => {
            let mut out = v.clone();
            out.append(", ");
            out.append(last);
            out
        },
        None => last.to_owned(),
    }
}

fn hand_on(headers: &Table<String>, is_websocket: bool) -> (r: Vec<(String, String)>)
    ensures
        r.deep_view() == handed_on(pairs_of(headers@), is_websocket),
{
    let n: usize = headers.len();
    let ghost p = headers.pairs();
    let mut out: Vec<(String, String)> = Vec::new();
    let mut i: usize = 0;
    assert(p.take(0) =~= Seq::empty());
    assert(out.deep_view() =~= Seq::<(Seq<char>, Seq<char>)>::empty());
    while i < n
        invariant
            i <= n,
            n == p.len(),
            p == headers.pairs(),
            out.deep_view() == handed_on(p.take(i as int), is_websocket),
        decreases n - i,
    {
        assert(p.take(i + 1).drop_last() =~= p.take(i as int));
        assert(p.take(i + 1).last() == p[i as int]);
        let key = headers.key_at(i);
        let value = headers.value_at(i);
        if !is_hop_by_hop_request_header(key.as_str(), is_websocket) {
            if let Some(name) = header_name(key.as_str()) {
                if header_value_ok(value.as_str()) {
                    add_field(&mut out, name.as_str(), value.as_str());
                }
            }
        }
        i = i + 1;
    }
    assert(p.take(n as int) =~= p);
    out
}

fn set_sendable(h: &mut Vec<(String, String)>, name: &str, value: &str)
    ensures
        final(h).deep_view() == with_sendable(old(h).deep_view(), name@, value@),
{
    if header_value_ok(value) {
        set_field(h, name, value);
    }
}

/// The request to the server, once its target is known.
pub fn upstream_request_for(
    request: &Request,
    target: Result<String, String>,
    remote_ip: &str,
    tls: bool,
    is_websocket: bool,
) -> (r: Result<UpstreamRequest, String>)
    ensures
        request_view(r) == upstream_request(
            request@,
            match target {
                Ok(t) => Ok(t@),
                Err(e) => Err(e@),
            },
            remote_ip@,
            tls,
            is_websocket,
        ),
{
    if !method_ok(request.method.as_str()) {
        return Err("invalid HTTP method".to_owned());
    }
    let target = match target {
        Err(e) => {
            return Err(e);
        },
        Ok(t) => t,
    };
    let mut headers = hand_on(&request.headers, is_websocket);
    let hops_for = append_hop(&request.headers, "x-forwarded-for", remote_ip);
    set_sendable(&mut headers, "x-forwarded-for", hops_for.as_str());
    let proto = if tls {
        "https"
    } else {
        "http"
    };
    let hops_proto = append_hop(&request.headers, "x-forwarded-proto", proto);
    set_sendable(&mut headers, "x-forwarded-proto", hops_proto.as_str());
    let connection = if is_websocket {
        "Upgrade"
    } else {
        "close"
    };
    set_field(&mut headers, "connection", connection);
    Ok(UpstreamRequest { method: request.method.clone(), target, headers })
}

/// The request to the server: that of the client, without what speaks of its
/// connection, and with its address and scheme. Otherwise what is wrong with it.
pub fn build_upstream_request(
    request: &Request,
    remote_ip: &str,
    opts: &Resolved,
    is_websocket: bool,
) -> (r: Result<UpstreamRequest, String>)
    ensures
        request_view(r) == upstream_request(
            request@,
            target_text(request@.path),
            remote_ip@,
            opts@.tls_enabled,
            is_websocket,
        ),
{
    let target = parse_target(request.path.as_str());
    upstream_request_for(request, target, remote_ip, opts.tls_enabled, is_websocket)
}

/// Header fields without the one on the connection.
pub open spec fn but_connection(p: Seq<(Seq<char>, Seq<char>)>) -> Seq<(Seq<char>, Seq<char>)>
    decreases p.len(),
{
    if p.len() == 0 {
        Seq::empty()
    } else if p.last().0 == "connection"@ {
        but_connection(p.drop_last())
    } else {
        but_connection(p.drop_last()).push(p.last())
    }
}

/// The lines of a request that is handed on as it came, but for the connection.
pub open spec fn upstream_lines(q: RequestView, ip: Seq<char>, tls: bool, websocket: bool) -> Seq<
    char,
> {
    q.method + " "@ + q.path + " HTTP/1.1\r\n"@ + field_lines(but_connection(pairs_of(q.headers)))
        + "X-Forwarded-For: "@ + hops(q, "x-forwarded-for"@, ip) + "\r\nX-Forwarded-Proto: "@
        + hops(q, "x-forwarded-proto"@, scheme(tls)) + "\r\nConnection: "@ + connection_field(
        websocket,
    ) + "\r\n\r\n"@
}

/// The lines of a request that is handed on as it came, but for the connection.
pub fn write_upstream_request(
    request: &Request,
    remote_ip: &str,
    opts: &Resolved,
    is_websocket: bool,
) -> (r: String)
    ensures
        r@ == upstream_lines(request@, remote_ip@, opts@.tls_enabled, is_websocket),
{
    let n: usize = request.headers.len();
    let ghost p = request.headers.pairs();
    let mut fields: Vec<(String, String)> = Vec::new();
    let mut i: usize = 0;
    assert(p.take(0) =~= Seq::empty());
    assert(fields.deep_view() =~= Seq::<(Seq<char>, Seq<char>)>::empty());
    while i < n
        invariant
            i <= n,
            n == p.len(),
            p == request.headers.pairs(),
            fields.deep_view() == but_connection(p.take(i as int)),
        decreases n - i,
    {
        assert(p.take(i + 1).drop_last() =~= p.take(i as int));
        assert(p.take(i + 1).last() == p[i as int]);
        let key = request.headers.key_at(i);
        if !key.as_str().eq("connection") {
            add_field(&mut fields, key.as_str(), request.headers.value_at(i).as_str());
        }
        i = i + 1;
    }
    assert(p.take(n as int) =~= p);
    let mut out = request.method.clone();
    out.append(" ");
    out.append(request.path.as_str());
    out.append(" HTTP/1.1\r\n");
    out.append(lines_of_fields(&fields).as_str());
    out.append("X-Forwarded-For: ");
    out.append(append_hop(&request.headers, "x-forwarded-for", remote_ip).as_str());
    out.append("\r\nX-Forwarded-Proto: ");
    let proto = if opts.tls_enabled {
        "https"
    } else {
        "http"
    };
    out.append(append_hop(&request.headers, "x-forwarded-proto", proto).as_str());
    out.append("\r\nConnection: ");
    out.append(
        if is_websocket {
            "Upgrade"
        } else {
            "close"
        },
    );
    out.append("\r\n\r\n");
    out
}

// ---------------------------------------------------------------------------
// The response
// ---------------------------------------------------------------------------

/// Whether a header field of a response goes back to the client. Those on the
/// connection do where the protocol is switched.
pub open spec fn is_relayed(name: Seq<char>, keep_upgrade: bool) -> bool {
    let n = lower(name);
    if n == "connection"@ || n == "upgrade"@ {
        keep_upgrade
    } else {
        !is_of_connection(n, true)
    }
}

/// The header fields of a response that go back to the client.
pub open spec fn relayed(h: Seq<(Seq<char>, Seq<char>)>, keep_upgrade: bool) -> Seq<
    (Seq<char>, Seq<char>),
>
    decreases h.len(),
{
    if h.len() == 0 {
        Seq::empty()
    } else if is_relayed(h.last().0, keep_upgrade) {
        relayed(h.drop_last(), keep_upgrade).push(h.last())
    } else {
        relayed(h.drop_last(), keep_upgrade)
    }
}

/// The header fields of a response that go back to the client.
pub fn copy_relayable_headers(from: &Vec<(String, String)>, keep_upgrade: bool) -> (r: Vec<
    (String, String),
>)
    ensures
        r.deep_view() == relayed(from.deep_view(), keep_upgrade),
{
    let ghost h = from.deep_view();
    let n: usize = from.len();
    let mut out: Vec<(String, String)> = Vec::new();
    let mut i: usize = 0;
    assert(h.take(0) =~= Seq::empty());
    assert(out.deep_view() =~= Seq::<(Seq<char>, Seq<char>)>::empty());
    while i < n
        invariant
            i <= n,
            n == from@.len(),
            h == from.deep_view(),
            out.deep_view() == relayed(h.take(i as int), keep_upgrade),
        decreases n - i,
    {
        assert(h.take(i + 1).drop_last() =~= h.take(i as int));
        assert(h.take(i + 1).last() == (from@[i as int].0@, from@[i as int].1@));
        let name = lowered(from[i].0.as_str());
        let keep = if name.as_str().eq("connection") || name.as_str().eq("upgrade") {
            keep_upgrade
        } else {
            !is_hop_by_hop_request_header(name.as_str(), true)
        };
        if keep {
            add_field(&mut out, from[i].0.as_str(), from[i].1.as_str());
        }
        i = i + 1;
    }
    assert(h.take(n as int) =~= h);
    out
}

/// Whether the server agreed to switch the protocol.
pub open spec fn switches(websocket: bool, status: u16) -> bool {
    websocket && status == 101
}

/// What a client gets of a response: whether the connection is handed over, and
/// the header fields.
pub fn relay_head(is_websocket: bool, status: u16, headers: &Vec<(String, String)>) -> (r: (
    bool,
    Vec<(String, String)>,
))
    ensures
        r.0 == switches(is_websocket, status),
        r.1.deep_view() == relayed(headers.deep_view(), switches(is_websocket, status)),
{
    let switched = is_websocket && status == 101;
    (switched, copy_relayable_headers(headers, switched))
}

/// A step of the exchange that can fail.
#[derive(Debug, Clone, Copy, PartialEq, Eq, Structural)]
pub enum Step {
    /// Building the request.
    Build,
    /// Connecting.
    Connect,
    /// Agreeing on the protocol.
    Handshake,
    /// Writing the request.
    Write,
    /// Reading the response.
    Read,
}

/// What went wrong in a step.
pub open spec fn failure(step: Step, upstream: Seq<char>, err: Seq<char>) -> Seq<char> {
    match step {
        Step::Build => "could not build upstream request: "@ + err,
        Step::Connect => "failed to connect to upstream "@ + upstream + ": "@ + err,
        Step::Handshake => "upstream HTTP/1.1 handshake failed: "@ + err,
        Step::Write => "failed to write request to upstream: "@ + err,
        Step::Read => "upstream produced no usable response: "@ + err,
    }
}

/// What went wrong in a step.
pub fn failure_detail(step: Step, upstream: &str, err: &str) -> (r: String)
    ensures
        r@ == failure(step, upstream@, err@),
{
    let mut out = match step {
        Step::Build => "could not build upstream request: ".to_owned(),
        Step::Connect => {
            let mut s = "failed to connect to upstream ".to_owned();
            s.append(upstream);
            s.append(": ");
            s
        },
        Step::Handshake => "upstream HTTP/1.1 handshake failed: ".to_owned(),
        Step::Write => "failed to write request to upstream: ".to_owned(),
        Step::Read => "upstream produced no usable response: ".to_owned(),
    };
    out.append(err);
    out
}

/// The response where the exchange failed.
pub open spec fn gateway_response(q: RequestView, debug: bool, detail: Seq<char>) -> ResponseView {
    page_response(
        502,
        "Bad Gateway"@,
        error_html(502, q, debug, Some(detail)),
        q.method == "HEAD"@,
    )
}

/// The response where the exchange failed.
pub fn bad_gateway(request: &Request, opts: &Resolved, detail: &str) -> (r: Response)
    ensures
        r@ == gateway_response(request@, opts@.debug, detail@),
{
    let page = error_page_with_trace(502, request, opts.debug, Some(detail));
    respond_page(502, "Bad Gateway", page.as_str(), request.method.as_str().eq("HEAD"))
}

/// The first lines of a response of the server.
#[derive(Debug)]
pub struct UpstreamHead {
    /// The status.
    pub status: u16,
    /// The words after it.
    pub reason: String,
    /// The header fields.
    pub headers: Vec<(String, String)>,
}

/// The first lines of a response of the server.
pub struct UpstreamHeadView {
    pub status: u16,
    pub reason: Seq<char>,
    pub headers: Seq<(Seq<char>, Seq<char>)>,
}

impl View for UpstreamHead {
    type V = UpstreamHeadView;

    open spec fn view(&self) -> UpstreamHeadView {
        UpstreamHeadView {
            status: self.status,
            reason: self.reason@,
            headers: self.headers.deep_view(),
        }
    }
}

/// What is wrong with the first lines of a response.
#[derive(Debug, Clone, Copy, PartialEq, Eq, Structural)]
pub enum HeadFault {
    /// There are none.
    Empty,
    /// The first has no status.
    Malformed,
}

/// What is said of first lines that are no response.
pub open spec fn fault_text(f: HeadFault) -> Seq<char> {
    match f {
        HeadFault::Empty => "empty response from upstream"@,
        HeadFault::Malformed => "malformed upstream status line"@,
    }
}

impl HeadFault {
    /// What is wrong, in words.
    pub fn message(self) -> (r: &'static str)
        ensures
            r@ == fault_text(self),
    {
        match self {
            HeadFault::Empty => "empty response from upstream",
            HeadFault::Malformed => "malformed upstream status line",
        }
    }
}

/// The status and the words after it in the first line of a response.
pub open spec fn status_of(line: Seq<char>) -> Option<(u16, Seq<char>)> {
    match split_once(trim_end(line, Class::Space), ' ') {
        None => None,
        Some(p) => {
            let (code, words) = match split_once(p.1, ' ') {
                Some(w) => w,
                None => (p.1, ""@),
            };
            match number16(code) {
                Some(n) => Some((n, words)),
                None => None,
            }
        },
    }
}

/// The header fields in lines from a place on, up to an empty one.
pub open spec fn fields_in(lines: Seq<Seq<char>>, i: int) -> Seq<(Seq<char>, Seq<char>)>
    decreases lines.len() - i,
{
    if i < 0 || i >= lines.len() {
        Seq::empty()
    } else {
        let line = trim_end(lines[i], Class::LineEnd);
        if line.len() == 0 {
            Seq::empty()
        } else {
            match split_once(line, ':') {
                Some(p) => seq![(trim(p.0), trim(p.1))] + fields_in(lines, i + 1),
                None => fields_in(lines, i + 1),
            }
        }
    }
}

/// The first lines of a response of the server.
pub open spec fn head_in(lines: Seq<Seq<char>>) -> Result<UpstreamHeadView, HeadFault> {
    if lines.len() == 0 {
        Err(HeadFault::Empty)
    } else {
        match status_of(lines[0]) {
            None => Err(HeadFault::Malformed),
            Some(s) => Ok(
                UpstreamHeadView { status: s.0, reason: s.1, headers: fields_in(lines, 1) },
            ),
        }
    }
}

/// The first lines of a response, by their value.
pub open spec fn head_view(r: Result<UpstreamHead, HeadFault>) -> Result<
    UpstreamHeadView,
    HeadFault,
> {
    match r {
        Ok(h) => Ok(h@),
        Err(e) => Err(e),
    }
}

/// The first lines of a response of the server, each with its end.
pub fn read_upstream_status_and_headers(lines: &Vec<String>) -> (r: Result<UpstreamHead, HeadFault>)
    ensures
        head_view(r) == head_in(lines.deep_view()),
{
    let ghost all = lines.deep_view();
    let n: usize = lines.len();
    if n == 0 {
        return Err(HeadFault::Empty);
    }
    assert(all[0] == lines@[0]@);
    let first = trim_end_of(lines[0].as_str(), Class::Space);
    let rest = match split_once_at(first.as_str(), ' ') {
        None => {
            return Err(HeadFault::Malformed);
        },
        Some(p) => p.1,
    };
    let (code, reason) = match split_once_at(rest.as_str(), ' ') {
        Some(w) => w,
        None => (rest, "".to_owned()),
    };
    let status: u16 = match parse_u16(code.as_str()) {
        None => {
            return Err(HeadFault::Malformed);
        },
        Some(s) => s,
    };
    let mut headers: Vec<(String, String)> = Vec::new();
    let mut i: usize = 1;
    assert(headers.deep_view() =~= Seq::<(Seq<char>, Seq<char>)>::empty());
    assert(headers.deep_view() + fields_in(all, 1) =~= fields_in(all, 1));
    while i < n
        invariant
            1 <= i <= n,
            n == lines@.len(),
            all == lines.deep_view(),
            status_of(all[0]) == Some((status, reason@)),
            headers.deep_view() + fields_in(all, i as int) == fields_in(all, 1),
        decreases n - i,
    {
        assert(all[i as int] == lines@[i as int]@);
        let line = trim_end_of(lines[i].as_str(), Class::LineEnd);
        if line.as_str().is_empty() {
            assert(headers.deep_view() + Seq::<(Seq<char>, Seq<char>)>::empty()
                =~= headers.deep_view());
            return Ok(UpstreamHead { status, reason, headers });
        }
        if let Some(p) = split_once_at(line.as_str(), ':') {
            let k = trimmed(p.0.as_str());
            let v = trimmed(p.1.as_str());
            let ghost front = headers.deep_view();
            add_field(&mut headers, k.as_str(), v.as_str());
            assert(front.push((k@, v@)) + fields_in(all, i + 1) =~= front + (seq![(k@, v@)]
                + fields_in(all, i + 1)));
        }
        i = i + 1;
    }
    assert(headers.deep_view() + Seq::<(Seq<char>, Seq<char>)>::empty() =~= headers.deep_view());
    Ok(UpstreamHead { status, reason, headers })
}

/// The first lines of a response as they go back to the client.
pub open spec fn status_lines(h: UpstreamHeadView) -> Seq<char> {
    "HTTP/1.1 "@ + decimal(h.status as int) + " "@ + h.reason + "\r\n"@ + field_lines(h.headers)
        + "\r\n"@
}

/// The first lines of a response as they go back to the client.
pub fn write_status_and_headers(head: &UpstreamHead) -> (r: String)
    ensures
        r@ == status_lines(head@),
{
    let mut out = "HTTP/1.1 ".to_owned();
    out.append(decimal_of(head.status as u64).as_str());
    out.append(" ");
    out.append(head.reason.as_str());
    out.append("\r\n");
    out.append(lines_of_fields(&head.headers).as_str());
    out.append("\r\n");
    out
}

/// How the body of a response is framed.
#[derive(Debug, Clone, Copy, PartialEq, Eq, Structural)]
pub enum BodyFraming {
    /// There is no body.
    Nothing,
    /// By its length.
    Length(u64),
    /// In chunks.
    Chunked,
    /// By the end of the connection.
    UntilClose,
}

/// Whether a body comes in chunks.
pub open spec fn is_chunked(h: Seq<(Seq<char>, Seq<char>)>) -> bool {
    exists|i: int|
        0 <= i < h.len() && same_letters((#[trigger] h[i]).0, "transfer-encoding"@) && same_letters(
            h[i].1,
            "chunked"@,
        )
}

/// The length that the first field on it gives, from a place on.
pub open spec fn stated_length(h: Seq<(Seq<char>, Seq<char>)>, i: int) -> Option<u64>
    decreases h.len() - i,
{
    if i < 0 || i >= h.len() {
        None
    } else if same_letters(h[i].0, "content-length"@) {
        number64(trim(h[i].1))
    } else {
        stated_length(h, i + 1)
    }
}

/// How the body of a response is framed: some have none, chunks win over a
/// length, and a length that is no number counts as none.
pub open spec fn framing(h: Seq<(Seq<char>, Seq<char>)>, head_only: bool, status: u16) -> BodyFraming {
    if head_only || status == 204 || status == 304 || 100 <= status < 200 {
        BodyFraming::Nothing
    } else if is_chunked(h) {
        BodyFraming::Chunked
    } else {
        match stated_length(h, 0) {
            Some(n) => BodyFraming::Length(n),
            None => BodyFraming::UntilClose,
        }
    }
}

/// How the body of a response is framed.
pub fn response_framing(headers: &Vec<(String, String)>, head_only: bool, status: u16) -> (r:
    BodyFraming)
    ensures
        r == framing(headers.deep_view(), head_only, status),
{
    if head_only || status == 204 || status == 304 || (100 <= status && status < 200) {
        return BodyFraming::Nothing;
    }
    let ghost h = headers.deep_view();
    let n: usize = headers.len();
    let mut i: usize = 0;
    while i < n
        invariant
            i <= n,
            n == headers@.len(),
            h == headers.deep_view(),
            framing(h, head_only, status) == if is_chunked(h) {
                BodyFraming::Chunked
            } else {
                match stated_length(h, 0) {
                    Some(n) => BodyFraming::Length(n),
                    None => BodyFraming::UntilClose,
                }
            },
            forall|j: int|
                0 <= j < i ==> !(same_letters((#[trigger] h[j]).0, "transfer-encoding"@)
                    && same_letters(h[j].1, "chunked"@)),
        decreases n - i,
    {
        assert(h[i as int] == (headers@[i as int].0@, headers@[i as int].1@));
        if eq_ignore_case(headers[i].0.as_str(), "transfer-encoding") && eq_ignore_case(
            headers[i].1.as_str(),
            "chunked",
        ) {
            return BodyFraming::Chunked;
        }
        i = i + 1;
    }
    let mut j: usize = 0;
    while j < n
        invariant
            j <= n,
            n == headers@.len(),
            h == headers.deep_view(),
            framing(h, head_only, status) == match stated_length(h, 0) {
                Some(n) => BodyFraming::Length(n),
                None => BodyFraming::UntilClose,
            },
            stated_length(h, 0) == stated_length(h, j as int),
        decreases n - j,
    {
        assert(h[j as int] == (headers@[j as int].0@, headers@[j as int].1@));
        if eq_ignore_case(headers[j].0.as_str(), "content-length") {
            let t = trimmed(headers[j].1.as_str());
            return match parse_u64(t.as_str()) {
                Some(v) => BodyFraming::Length(v),
                None => BodyFraming::UntilClose,
            };
        }
        j = j + 1;
    }
    BodyFraming::UntilClose
}

/// What the relay of a body in chunks needs next.
#[derive(Debug, Clone, Copy, PartialEq, Eq, Structural)]
pub enum Need {
    /// A line with the size of a chunk.
    Size,
    /// The bytes of a chunk, and a line end.
    Chunk(u64),
    /// A line after the last chunk.
    Trailer,
    /// Nothing more.
    Nothing,
}

/// The relay of a body in chunks, which passes every line and every byte on as it
/// came.
#[derive(Debug, Clone, Copy, PartialEq, Eq, Structural)]
pub struct ChunkRelay {
    /// What it needs next.
    pub need: Need,
    /// How many bytes of the body it has passed on, modulo two to the power of
    /// sixty-four.
    pub total: u64,
}

/// The size that a line gives; a line that gives none ends the body.
pub open spec fn relayed_size(line: Seq<char>) -> int {
    match number(trim(before(trim(line), ';')), 16, usize::MAX as int) {
        Some(n) => n,
        None => 0,
    }
}

/// A relay after a line; none where the stream ended.
pub open spec fn after_line(c: ChunkRelay, line: Option<Seq<char>>) -> ChunkRelay {
    match (c.need, line) {
        (Need::Size, Some(l)) => ChunkRelay {
            need: if relayed_size(l) == 0 {
                Need::Trailer
            } else {
                Need::Chunk(relayed_size(l) as u64)
            },
            ..c
        },
        (Need::Trailer, Some(l)) => ChunkRelay {
            need: if trim(l).len() == 0 {
                Need::Nothing
            } else {
                Need::Trailer
            },
            ..c
        },
        (Need::Size, None) => ChunkRelay { need: Need::Nothing, ..c },
        (Need::Trailer, None) => ChunkRelay { need: Need::Nothing, ..c },
        _ => c,
    }
}

/// A relay after the bytes that it needed.
pub open spec fn after_chunk(c: ChunkRelay) -> ChunkRelay {
    match c.need {
        Need::Chunk(n) => ChunkRelay {
            need: Need::Size,
            total: ((c.total + n) % 0x1_0000_0000_0000_0000) as u64,
        },
        _ => c,
    }
}

impl ChunkRelay {
    /// A relay that has passed nothing on.
    pub fn new() -> (r: Self)
        ensures
            r == (ChunkRelay { need: Need::Size, total: 0 }),
    {
        ChunkRelay { need: Need::Size, total: 0 }
    }

    /// Takes a line; none where the stream ended.
    pub fn line(&mut self, line: Option<&str>)
        ensures
            *final(self) == after_line(*old(self), line.deep_view()),
    {
        match self.need {
            Need::Size => match line {
                Some(l) => {
                    let t = trimmed(l);
                    let b = before_char(t.as_str(), ';');
                    let digits = trimmed(b.as_str());
                    let size: u64 = match parse_number(digits.as_str(), 16, usize::MAX as u64) {
                        Some(v) => v,
                        None => 0,
                    };
                    self.need = if size == 0 {
                        Need::Trailer
                    } else {
                        Need::Chunk(size)
                    };
                },
                None => {
                    self.need = Need::Nothing;
                },
            },
            Need::Trailer => match line {
                Some(l) => {
                    let t = trimmed(l);
                    if t.as_str().is_empty() {
                        self.need = Need::Nothing;
                    }
                },
                None => {
                    self.need = Need::Nothing;
                },
            },
            _ => {},
        }
    }

    /// Takes the bytes that it needed.
    pub fn chunk(&mut self)
        ensures
            *final(self) == after_chunk(*old(self)),
    {
        if let Need::Chunk(n) = self.need {
            self.need = Need::Size;
            self.total = self.total.wrapping_add(n);
        }
    }
}

// ---------------------------------------------------------------------------
// The exchange
// ---------------------------------------------------------------------------

/// What happened in an exchange with the server.
#[derive(Debug)]
pub enum Event {
    /// It takes connections, or it does not yet.
    Ready(bool),
    /// A connection is there.
    Connected,
    /// The request was sent.
    Sent,
    /// The first lines of the response were read.
    Head(Vec<String>),
    /// A step failed, with a message.
    Failed(Step, String),
}

/// What happened in an exchange with the server.
pub enum EventView {
    Ready(bool),
    Connected,
    Sent,
    Head(Seq<Seq<char>>),
    Failed(Step, Seq<char>),
}

impl View for Event {
    type V = EventView;

    open spec fn view(&self) -> EventView {
        match *self {
            Event::Ready(b) => EventView::Ready(b),
            Event::Connected => EventView::Connected,
            Event::Sent => EventView::Sent,
            Event::Head(l) => EventView::Head(l.deep_view()),
            Event::Failed(s, e) => EventView::Failed(s, e@),
        }
    }
}

/// What an exchange asks for next.
pub enum Exchange {
    /// Connect to the server.
    Connect,
    /// Send the request.
    Send,
    /// Read the first lines of the response.
    ReadHead,
    /// Answer the client without the server.
    Answer(Response),
    /// Hand these first lines to the client, and then all bytes both ways.
    Upgrade(UpstreamHead),
    /// Hand these first lines to the client, and then the body.
    Stream(UpstreamHead, BodyFraming),
}

/// What an exchange asks for next.
pub enum ExchangeView {
    Connect,
    Send,
    ReadHead,
    Answer(ResponseView),
    Upgrade(UpstreamHeadView),
    Stream(UpstreamHeadView, BodyFraming),
}

impl View for Exchange {
    type V = ExchangeView;

    open spec fn view(&self) -> ExchangeView {
        match *self {
            Exchange::Connect => ExchangeView::Connect,
            Exchange::Send => ExchangeView::Send,
            Exchange::ReadHead => ExchangeView::ReadHead,
            Exchange::Answer(r) => ExchangeView::Answer(r@),
            Exchange::Upgrade(h) => ExchangeView::Upgrade(h@),
            Exchange::Stream(h, f) => ExchangeView::Stream(h@, f),
        }
    }
}

/// What an exchange asks for after something happened.
pub open spec fn exchange_after(
    q: RequestView,
    debug: bool,
    upstream: Seq<char>,
    event: EventView,
) -> ExchangeView {
    match event {
        EventView::Ready(true) => ExchangeView::Connect,
        EventView::Ready(false) => ExchangeView::Answer(starting_response(q)),
        EventView::Connected => ExchangeView::Send,
        EventView::Sent => ExchangeView::ReadHead,
        EventView::Failed(step, e) => ExchangeView::Answer(
            gateway_response(q, debug, failure(step, upstream, e)),
        ),
        EventView::Head(lines) => match head_in(lines) {
            Err(f) => ExchangeView::Answer(
                gateway_response(q, debug, failure(Step::Read, upstream, fault_text(f))),
            ),
            Ok(h) => if switches(asks_for_websocket(q), h.status) {
                ExchangeView::Upgrade(h)
            } else {
                ExchangeView::Stream(h, framing(h.headers, q.method == "HEAD"@, h.status))
            },
        },
    }
}

/// What the exchange for a request asks for after something happened. It begins
/// with finding out whether the server takes connections.
pub fn proxy_request(request: &Request, opts: &Resolved, upstream: &str, event: Event) -> (r:
    Exchange)
    ensures
        r@ == exchange_after(request@, opts@.debug, upstream@, event@),
{
    match event {
        Event::Ready(true) => Exchange::Connect,
        Event::Ready(false) => Exchange::Answer(respond_starting(request)),
        Event::Connected => Exchange::Send,
        Event::Sent => Exchange::ReadHead,
        Event::Failed(step, e) => {
            let detail = failure_detail(step, upstream, e.as_str());
            Exchange::Answer(bad_gateway(request, opts, detail.as_str()))
        },
        Event::Head(lines) => match read_upstream_status_and_headers(&lines) {
            Err(f) => {
                let detail = failure_detail(Step::Read, upstream, f.message());
                Exchange::Answer(bad_gateway(request, opts, detail.as_str()))
            },
            Ok(h) => {
                if is_websocket(request) && h.status == 101 {
                    Exchange::Upgrade(h)
                } else {
                    let head_only = request.method.as_str().eq("HEAD");
                    let f = response_framing(&h.headers, head_only, h.status);
                    Exchange::Stream(h, f)
                }
            },
        },
    }
}

// ---------------------------------------------------------------------------
// Laws
// ---------------------------------------------------------------------------

/// Whether the names of header fields are in lower case, as those of every
/// request are.
pub open spec fn names_are_lower(m: Map<Seq<char>, Seq<char>>) -> bool {
    forall|k: Seq<char>| #[trigger] m.contains_key(k) ==> lower(k) == k
}

proof fn lemma_handed_on(p: Seq<(Seq<char>, Seq<char>)>, websocket: bool, name: Seq<char>)
    requires
        forall|i: int| 0 <= i < p.len() ==> lower((#[trigger] p[i]).0) == p[i].0,
        lower(name) == name,
    ensures
        is_of_connection(name, websocket) ==> !has_field(handed_on(p, websocket), name),
        forall|i: int|
            0 <= i < p.len() && !is_of_connection((#[trigger] p[i]).0, websocket) && is_field_name(
                p[i].0,
            ) && is_field_value(p[i].1) ==> handed_on(p, websocket).contains(p[i]),
    decreases p.len(),
{
    if p.len() > 0 {
        let front = p.drop_last();
        assert forall|i: int| 0 <= i < front.len() implies lower((#[trigger] front[i]).0)
            == front[i].0 by {
            assert(front[i] == p[i]);
        }
        lemma_handed_on(front, websocket, name);
        assert(p[p.len() - 1] == p.last());
        let a = handed_on(front, websocket);
        let b = handed_on(p, websocket);
        if is_of_connection(name, websocket) {
            assert forall|i: int| 0 <= i < b.len() implies !same_letters(
                (#[trigger] b[i]).0,
                name,
            ) by {
                if i < a.len() {
                    assert(b[i] == a[i]);
                } else {
                    assert(b[i] == (lower(p.last().0), p.last().1));
                }
            }
        }
        assert forall|i: int|
            0 <= i < p.len() && !is_of_connection((#[trigger] p[i]).0, websocket) && is_field_name(
                p[i].0,
            ) && is_field_value(p[i].1) implies b.contains(p[i]) by {
            if i < front.len() {
                assert(front[i] == p[i]);
                assert(a.contains(front[i]));
                let j = choose|j: int| 0 <= j < a.len() && a[j] == front[i];
                assert(b[j] == a[j]);
            } else {
                assert(b[b.len() - 1] == p.last());
            }
        }
    }
}

proof fn lemma_keys_lower(m: Map<Seq<char>, Seq<char>>)
    requires
        listed(m),
        names_are_lower(m),
    ensures
        forall|i: int| 0 <= i < pairs_of(m).len() ==> lower((#[trigger] pairs_of(m)[i]).0)
            == pairs_of(m)[i].0,
{
    let p = pairs_of(m);
    assert forall|i: int| 0 <= i < p.len() implies lower((#[trigger] p[i]).0) == p[i].0 by {
        lemma_to_map_values(p, i);
        assert(m.contains_key(p[i].0));
    }
}

proof fn lemma_lacks_after(
    h: Seq<(Seq<char>, Seq<char>)>,
    set: Seq<char>,
    value: Seq<char>,
    name: Seq<char>,
)
    requires
        !same_letters(set, name),
    ensures
        has_field(with_value(h, set, value), name) == has_field(h, name),
{
    lemma_without(h, set, name);
    let w = without_field(h, set);
    let v = with_value(h, set, value);
    if has_field(w, name) {
        let i = choose|i: int| 0 <= i < w.len() && same_letters((#[trigger] w[i]).0, name);
        assert(v[i] == w[i]);
    }
    if has_field(v, name) {
        let i = choose|i: int| 0 <= i < v.len() && same_letters((#[trigger] v[i]).0, name);
        if i < w.len() {
            assert(w[i] == v[i]);
        }
    }
}

/// What speaks of the connection of the client, its framing above all, never
/// reaches the server.
pub proof fn framing_stays_behind(
    q: RequestView,
    ip: Seq<char>,
    tls: bool,
    websocket: bool,
    name: Seq<char>,
)
    requires
        listed(q.headers),
        names_are_lower(q.headers),
        is_of_connection(name, websocket),
        name != "connection"@,
    ensures
        !has_field(upstream_fields(q, ip, tls, websocket), name),
{
    reveal_strlit("connection");
    reveal_strlit("keep-alive");
    reveal_strlit("proxy-authenticate");
    reveal_strlit("proxy-authorization");
    reveal_strlit("proxy-connection");
    reveal_strlit("te");
    reveal_strlit("trailer");
    reveal_strlit("transfer-encoding");
    reveal_strlit("content-length");
    reveal_strlit("upgrade");
    reveal_strlit("x-forwarded-for");
    reveal_strlit("x-forwarded-proto");
    assert(lower(name) =~= name);
    lemma_keys_lower(q.headers);
    let h = handed_on(pairs_of(q.headers), websocket);
    lemma_handed_on(pairs_of(q.headers), websocket, name);
    assert(lower(name)[0] != 'x');
    assert(lower("x-forwarded-for"@)[0] == 'x');
    assert(lower("x-forwarded-proto"@)[0] == 'x');
    assert(lower("connection"@) =~= "connection"@);
    let xff = hops(q, "x-forwarded-for"@, ip);
    let xfp = hops(q, "x-forwarded-proto"@, scheme(tls));
    lemma_lacks_after(h, "x-forwarded-for"@, xff, name);
    let h1 = with_sendable(h, "x-forwarded-for"@, xff);
    lemma_lacks_after(h1, "x-forwarded-proto"@, xfp, name);
    let h2 = with_sendable(h1, "x-forwarded-proto"@, xfp);
    lemma_lacks_after(h2, "connection"@, connection_field(websocket), name);
}

proof fn lemma_contains_after(
    h: Seq<(Seq<char>, Seq<char>)>,
    set: Seq<char>,
    value: Seq<char>,
    f: (Seq<char>, Seq<char>),
)
    requires
        h.contains(f),
        !same_letters(set, f.0),
    ensures
        with_value(h, set, value).contains(f),
{
    lemma_stays(h, set, f);
    let w = without_field(h, set);
    let i = choose|i: int| 0 <= i < w.len() && w[i] == f;
    assert(with_value(h, set, value)[i] == f);
}

proof fn lemma_stays(h: Seq<(Seq<char>, Seq<char>)>, gone: Seq<char>, f: (Seq<char>, Seq<char>))
    requires
        h.contains(f),
        !same_letters(gone, f.0),
    ensures
        without_field(h, gone).contains(f),
    decreases h.len(),
{
    let i = choose|i: int| 0 <= i < h.len() && h[i] == f;
    let front = h.drop_last();
    let w = without_field(h, gone);
    if i < front.len() {
        assert(front[i] == f);
        lemma_stays(front, gone, f);
        let v = without_field(front, gone);
        let j = choose|j: int| 0 <= j < v.len() && v[j] == f;
        assert(w[j] == f);
    } else {
        assert(w[w.len() - 1] == f);
    }
}

/// Every other header field that can be sent, the host among them, reaches the
/// server as the client sent it.
pub proof fn other_fields_are_handed_on(
    q: RequestView,
    ip: Seq<char>,
    tls: bool,
    websocket: bool,
    name: Seq<char>,
)
    requires
        listed(q.headers),
        names_are_lower(q.headers),
        q.headers.contains_key(name),
        !is_of_connection(name, websocket),
        name != "x-forwarded-for"@,
        name != "x-forwarded-proto"@,
        is_field_name(name),
        is_field_value(q.headers[name]),
    ensures
        upstream_fields(q, ip, tls, websocket).contains((name, q.headers[name])),
{
    let p = pairs_of(q.headers);
    lemma_keys_lower(q.headers);
    lemma_to_map_keys(p, name);
    let i = choose|i: int| 0 <= i < p.len() && #[trigger] p[i].0 == name;
    lemma_to_map_values(p, i);
    let f = p[i];
    let h = handed_on(p, websocket);
    lemma_handed_on(p, websocket, name);
    assert(h.contains(f));
    reveal_strlit("x-forwarded-for");
    reveal_strlit("x-forwarded-proto");
    reveal_strlit("connection");
    assert(lower("x-forwarded-for"@) =~= "x-forwarded-for"@);
    assert(lower("x-forwarded-proto"@) =~= "x-forwarded-proto"@);
    assert(lower("connection"@) =~= "connection"@);
    let xff = hops(q, "x-forwarded-for"@, ip);
    let xfp = hops(q, "x-forwarded-proto"@, scheme(tls));
    lemma_contains_after(h, "x-forwarded-for"@, xff, f);
    let h1 = with_sendable(h, "x-forwarded-for"@, xff);
    lemma_contains_after(h1, "x-forwarded-proto"@, xfp, f);
    let h2 = with_sendable(h1, "x-forwarded-proto"@, xfp);
    lemma_contains_after(h2, "connection"@, connection_field(websocket), f);
}

/// The address and the scheme of the client are added to what earlier hops told,
/// and never take its place; the connection is the own one of the server.
pub proof fn hops_are_added(q: RequestView, ip: Seq<char>, tls: bool, websocket: bool)
    requires
        is_field_value(hops(q, "x-forwarded-for"@, ip)),
        is_field_value(hops(q, "x-forwarded-proto"@, scheme(tls))),
    ensures
        upstream_fields(q, ip, tls, websocket).contains(
            ("x-forwarded-for"@, hops(q, "x-forwarded-for"@, ip)),
        ),
        upstream_fields(q, ip, tls, websocket).contains(
            ("x-forwarded-proto"@, hops(q, "x-forwarded-proto"@, scheme(tls))),
        ),
        upstream_fields(q, ip, tls, websocket).last() == (
            "connection"@,
            connection_field(websocket),
        ),
        !has_field(upstream_fields(q, ip, tls, websocket).drop_last(), "connection"@),
{
    reveal_strlit("x-forwarded-for");
    reveal_strlit("x-forwarded-proto");
    reveal_strlit("connection");
    assert(lower("x-forwarded-for"@).len() == 15);
    assert(lower("x-forwarded-proto"@).len() == 17);
    assert(lower("connection"@).len() == 10);
    let h = handed_on(pairs_of(q.headers), websocket);
    let f = ("x-forwarded-for"@, hops(q, "x-forwarded-for"@, ip));
    let g = ("x-forwarded-proto"@, hops(q, "x-forwarded-proto"@, scheme(tls)));
    let h1 = with_value(h, f.0, f.1);
    assert(h1[h1.len() - 1] == f);
    let h2 = with_value(h1, g.0, g.1);
    assert(h2[h2.len() - 1] == g);
    lemma_contains_after(h1, g.0, g.1, f);
    lemma_contains_after(h2, "connection"@, connection_field(websocket), f);
    lemma_contains_after(h2, "connection"@, connection_field(websocket), g);
    lemma_without(h2, "connection"@, "connection"@);
    let h3 = upstream_fields(q, ip, tls, websocket);
    assert(h3.drop_last() =~= without_field(h2, "connection"@));
}

/// What speaks of the connection to the server does not reach the client, but for
/// the switch of the protocol that both agreed on.
pub proof fn answers_lose_their_framing(
    h: Seq<(Seq<char>, Seq<char>)>,
    keep_upgrade: bool,
    i: int,
)
    requires
        0 <= i < relayed(h, keep_upgrade).len(),
    ensures
        ({
            let n = lower(relayed(h, keep_upgrade)[i].0);
            !is_of_connection(n, false) || (keep_upgrade && (n == "connection"@ || n
                == "upgrade"@))
        }),
    decreases h.len(),
{
    if h.len() > 0 {
        let front = relayed(h.drop_last(), keep_upgrade);
        if i < front.len() {
            answers_lose_their_framing(h.drop_last(), keep_upgrade, i);
            assert(relayed(h, keep_upgrade)[i] == front[i]);
        }
    }
}

/// Outside debug mode a client learns nothing of what went wrong.
pub proof fn failures_stay_inside(q: RequestView, one: Seq<char>, other: Seq<char>)
    ensures
        gateway_response(q, false, one) == gateway_response(q, false, other),
{
}

/// A relay that has ended stays so, whatever it is given.
pub proof fn ended_relays_stay_ended(c: ChunkRelay, line: Option<Seq<char>>)
    requires
        c.need is Nothing,
    ensures
        after_line(c, line) == c,
        after_chunk(c) == c,
{
}

/// How many more events an exchange waits for.
pub open spec fn events_left(e: ExchangeView) -> int {
    match e {
        ExchangeView::Connect => 3,
        ExchangeView::Send => 2,
        ExchangeView::ReadHead => 1,
        _ => 0,
    }
}

/// Whether something can happen where an exchange asks for something.
pub open spec fn may_happen(e: ExchangeView, event: EventView) -> bool {
    match e {
        ExchangeView::Connect => event is Connected || event is Failed,
        ExchangeView::Send => event is Sent || event is Failed,
        ExchangeView::ReadHead => event is Head || event is Failed,
        _ => false,
    }
}

/// Whatever happens, each event brings an exchange closer to its end.
pub proof fn exchanges_come_to_an_end(
    q: RequestView,
    debug: bool,
    upstream: Seq<char>,
    e: ExchangeView,
    event: EventView,
)
    requires
        may_happen(e, event),
    ensures
        0 <= events_left(exchange_after(q, debug, upstream, event)) < events_left(e),
{
}

/// A client is answered even where the server is not there: with a page that asks
/// it to wait while that does not take connections yet, and with an error after
/// any failure.
pub proof fn clients_are_always_answered(
    q: RequestView,
    debug: bool,
    upstream: Seq<char>,
    event: EventView,
)
    ensures
        event == EventView::Ready(false) ==> (exchange_after(
            q,
            debug,
            upstream,
            event,
        ) matches ExchangeView::Answer(r) && r.status == 503),
        event is Failed ==> (exchange_after(q, debug, upstream, event) matches ExchangeView::Answer(
            r,
        ) && r.status == 502),
        event matches EventView::Head(l) ==> (head_in(l) is Err ==> (exchange_after(
            q,
            debug,
            upstream,
            event,
        ) matches ExchangeView::Answer(r) && r.status == 502)),
{
}

} // verus!
