//! Serving files: what a path asks for, and what is sent of the file there.

use vstd::prelude::*;
use vstd::utf8::{decode_utf8, encode_utf8, valid_utf8};

use crate::configs::resolve::{Resolved, ResolvedView};
use crate::digits::{decimal, decimal_of, digit_value, hex, hex_of, number64, parse_u64};
use crate::outside::{lossy_string, lossy_text, mime_essence, mime_of};
use crate::paths::{extension, extension_of, is_within, join_path, under_dir, within};
use crate::servers::cascade::document;
use crate::servers::htaccess::{Rules, RulesView};
use crate::servers::http::{
    add_field, one_field, Body, BodyView, Request, RequestView, Response, ResponseView,
};
use crate::servers::pages::{
    error_response, reason, reason_phrase, respond_error,
};
use crate::supports::calendar::{format_http_date, http_date};
use crate::table::Table;
use crate::text::{
    before, before_char, has_prefix, lower, lowered, split, split_at_char, split_once,
    split_once_at, starts_with, strip_prefix, trim, trim_start, trim_start_of, trimmed,
    without_prefix, Class,
};

verus! {

// ---------------------------------------------------------------------------
// Paths in requests
// ---------------------------------------------------------------------------

/// The value of a hexadecimal digit.
pub open spec fn hex_digit(b: u8) -> Option<int> {
    if b < 128 {
        digit_value(b as char, 16)
    } else {
        None
    }
}

/// The value of a hexadecimal digit.
fn hex_digit_of(b: u8) -> (r: Option<u8>)
    ensures
        match r {
            Some(v) => hex_digit(b) == Some(v as int) && v < 16,
            None => hex_digit(b) is None,
        },
{
    if 48 <= b && b <= 57 {
        Some(b - 48)
    } else if 65 <= b && b <= 70 {
        Some(b - 55)
    } else if 97 <= b && b <= 102 {
        Some(b - 87)
    } else {
        None
    }
}

/// The byte that two characters after a percent sign stand for. A plus sign may
/// stand before one digit.
pub open spec fn escape_value(a: u8, b: u8) -> Option<int> {
    if a == 43 {
        hex_digit(b)
    } else {
        match (hex_digit(a), hex_digit(b)) {
            (Some(x), Some(y)) => Some(x * 16 + y),
            _ => None,
        }
    }
}

/// Bytes from a place on, with each escape put as the byte that it stands for.
/// An escape at the very end, and one that stands for nothing, stays as it is.
pub open spec fn unescaped(b: Seq<u8>, i: int) -> Seq<u8>
    decreases b.len() - i,
{
    if i < 0 || i >= b.len() {
        Seq::empty()
    } else if b[i] == 37 && i + 2 < b.len() && escape_value(b[i + 1], b[i + 2]) is Some {
        seq![(escape_value(b[i + 1], b[i + 2])->0) as u8] + unescaped(b, i + 3)
    } else {
        seq![b[i]] + unescaped(b, i + 1)
    }
}

/// A path without its escapes.
pub open spec fn plain_path(s: Seq<char>) -> Seq<char> {
    lossy_text(unescaped(encode_utf8(s), 0))
}

/// A path without its escapes.
pub fn percent_decode(s: &str) -> (r: String)
    ensures
        r@ == plain_path(s@),
        valid_utf8(unescaped(encode_utf8(s@), 0)) ==> r@ == decode_utf8(
            unescaped(encode_utf8(s@), 0),
        ),
{
    let b = s.as_bytes();
    let n: usize = b.len();
    let mut out: Vec<u8> = Vec::new();
    let mut i: usize = 0;
    assert(out@ + unescaped(b@, 0) =~= unescaped(b@, 0));
    while i < n
        invariant
            i <= n,
            n == b@.len(),
            out@ + unescaped(b@, i as int) == unescaped(b@, 0),
        decreases n - i,
    {
        let mut byte: Option<u8> = None;
        if b[i] == 37 && n - i > 2 {
            let second = hex_digit_of(b[i + 2]);
            if b[i + 1] == 43 {
                byte = second;
            } else if let (Some(x), Some(y)) = (hex_digit_of(b[i + 1]), second) {
                byte = Some(x * 16 + y);
            }
        }
        match byte {
            Some(v) => {
                let ghost start = out@;
                out.push(v);
                assert(out@ + unescaped(b@, i + 3) =~= start + (seq![v] + unescaped(b@, i + 3)));
                i = i + 3;
            },
            None => {
                let ghost start = out@;
                out.push(b[i]);
                assert(out@ + unescaped(b@, i + 1) =~= start + (seq![b@[i as int]] + unescaped(
                    b@,
                    i + 1,
                )));
                i = i + 1;
            },
        }
    }
    assert(out@ + Seq::<u8>::empty() =~= out@);
    lossy_string(out.as_slice())
}

/// Whether a path goes to or through a file that configures the server.
pub open spec fn names_ht(decoded: Seq<char>) -> bool {
    exists|i: int|
        0 <= i < split(decoded, '/').len() && starts_with(#[trigger] split(decoded, '/')[i], ".ht"@)
            && split(decoded, '/')[i].len() > 3
}

/// Whether a path goes to or through a file that configures the server.
pub fn is_ht_path(decoded: &str) -> (r: bool)
    ensures
        r == names_ht(decoded@),
{
    proof {
        reveal_strlit(".ht");
    }
    let pieces = split_at_char(decoded, '/');
    let ghost all = pieces.deep_view();
    let n: usize = pieces.len();
    let mut i: usize = 0;
    while i < n
        invariant
            i <= n,
            n == pieces@.len(),
            all == pieces.deep_view(),
            all == split(decoded@, '/'),
            forall|j: int|
                0 <= j < i ==> !(starts_with(#[trigger] all[j], ".ht"@) && all[j].len() > 3),
        decreases n - i,
    {
        assert(all[i as int] == pieces@[i as int]@);
        proof {
            reveal_strlit(".ht");
        }
        if has_prefix(pieces[i].as_str(), ".ht") && !pieces[i].as_str().eq(".ht") {
            proof {
                if all[i as int].len() <= 3 {
                    assert(all[i as int].len() == 3);
                    assert(all[i as int] =~= ".ht"@);
                }
            }
            return true;
        }
        i = i + 1;
    }
    false
}

// ---------------------------------------------------------------------------
// What is sent
// ---------------------------------------------------------------------------

/// The tag of a version of a file.
pub open spec fn etag(len: int, modified: int) -> Seq<char> {
    "\""@ + hex(len) + "-"@ + hex(modified) + "\""@
}

/// The tag of a file of a length that was changed at a time.
pub fn etag_for(len: u64, modified: u64) -> (r: String)
    ensures
        r@ == etag(len as int, modified as int),
{
    let mut out = "\"".to_owned();
    out.append(hex_of(len).as_str());
    out.append("-");
    out.append(hex_of(modified).as_str());
    out.append("\"");
    out
}

/// The first and the last byte that a range asks for of a file; none where it
/// asks for nothing that is there. Of several ranges the first counts.
pub open spec fn range_in(header: Seq<char>, len: u64) -> Option<(u64, u64)> {
    match strip_prefix(header, "bytes="@) {
        None => None,
        Some(spec) => match split_once(trim(before(spec, ',')), '-') {
            None => None,
            Some(p) => if p.0.len() == 0 {
                match number64(p.1) {
                    None => None,
                    Some(n) => if n == 0 || len == 0 {
                        None
                    } else if n >= len {
                        Some((0u64, (len - 1) as u64))
                    } else {
                        Some(((len - n) as u64, (len - 1) as u64))
                    },
                }
            } else {
                let end = if p.1.len() == 0 {
                    Some(if len == 0 {
                        0u64
                    } else {
                        (len - 1) as u64
                    })
                } else {
                    number64(p.1)
                };
                match (number64(p.0), end) {
                    (Some(a), Some(b)) => if a > b || a >= len {
                        None
                    } else if b >= len {
                        Some((a, (len - 1) as u64))
                    } else {
                        Some((a, b))
                    },
                    _ => None,
                }
            },
        },
    }
}

/// The first and the last byte that a range asks for of a file of a length.
pub fn parse_range(header: &str, len: u64) -> (r: Option<(u64, u64)>)
    ensures
        r == range_in(header@, len),
{
    let spec = match without_prefix(header, "bytes=") {
        None => {
            return None;
        },
        Some(s) => s,
    };
    let first = before_char(spec.as_str(), ',');
    let first = trimmed(first.as_str());
    let (start_s, end_s) = match split_once_at(first.as_str(), '-') {
        None => {
            return None;
        },
        Some(p) => p,
    };
    if start_s.as_str().is_empty() {
        match parse_u64(end_s.as_str()) {
            None => {
                return None;
            },
            Some(n) => {
                if n == 0 || len == 0 {
                    return None;
                }
                let start: u64 = if n >= len {
                    0
                } else {
                    len - n
                };
                return Some((start, len - 1));
            },
        }
    }
    let last: u64 = if len == 0 {
        0
    } else {
        len - 1
    };
    let start = parse_u64(start_s.as_str());
    let end: Option<u64> = if end_s.as_str().is_empty() {
        Some(last)
    } else {
        parse_u64(end_s.as_str())
    };
    match (start, end) {
        (Some(a), Some(b)) => if a > b || a >= len {
            None
        } else if b >= len {
            Some((a, last))
        } else {
            Some((a, b))
        },
        _ => None,
    }
}

/// What a range asks for is always in the file, and never nothing.
pub proof fn ranges_stay_inside(header: Seq<char>, len: u64)
    ensures
        range_in(header, len) matches Some(p) ==> p.0 <= p.1 < len,
{
}

/// Whether the text of a media type has a character set added.
pub open spec fn gets_charset(essence: Seq<char>) -> bool {
    starts_with(essence, "text/"@) || essence == "application/json"@ || essence
        == "application/javascript"@
}

/// The media type of a file: what settings say of its extension, or else what is
/// known of it.
pub open spec fn media_type(path: Seq<char>, types: Map<Seq<char>, Seq<char>>) -> Seq<char> {
    let ext = lower(
        match extension(path) {
            Some(e) => e,
            None => ""@,
        },
    );
    if types.contains_key(ext) {
        types[ext]
    } else {
        known_type(mime_essence(path))
    }
}

/// The text of a media type that is known of a file.
pub open spec fn known_type(essence: Seq<char>) -> Seq<char> {
    if gets_charset(essence) {
        essence + "; charset=utf-8"@
    } else {
        essence
    }
}

/// The text of a media type that is known of a file.
pub fn with_charset(essence: &str) -> (r: String)
    ensures
        r@ == known_type(essence@),
{
    let mut out = essence.to_owned();
    if has_prefix(essence, "text/") || essence.eq("application/json") || essence.eq(
        "application/javascript",
    ) {
        out.append("; charset=utf-8");
    }
    out
}

/// The media type of a file.
pub fn content_type_for(path: &str, mime_types: &Table<String>) -> (r: String)
    ensures
        r@ == media_type(path@, mime_types@),
{
    let ext = match extension_of(path) {
        Some(e) => e,
        None => "".to_owned(),
    };
    let ext = lowered(ext.as_str());
    if let Some(t) = mime_types.get(ext.as_str()) {
        return t.clone();
    }
    let essence = mime_of(path);
    with_charset(essence.as_str())
}

/// What is known of a file.
#[derive(Debug, Clone, Copy)]
pub struct FileFacts {
    /// Its length.
    pub len: u64,
    /// When it was changed, in seconds since 1970.
    pub modified: u64,
}

/// Whether a request says that it has the file already.
pub open spec fn is_fresh(h: Map<Seq<char>, Seq<char>>, f: FileFacts) -> bool {
    if h.contains_key("if-none-match"@) {
        h["if-none-match"@] == etag(f.len as int, f.modified as int)
    } else {
        h.contains_key("if-modified-since"@) && h["if-modified-since"@] == http_date(
            f.modified as int,
        )
    }
}

/// A response that says something of itself in one header field at most.
pub open spec fn bare_response(
    status: u16,
    reason: Seq<char>,
    headers: Seq<(Seq<char>, Seq<char>)>,
) -> ResponseView {
    ResponseView {
        status,
        reason,
        body: BodyView::Bytes(Seq::empty()),
        head_only: true,
        headers,
    }
}

/// A response without a body.
pub fn respond_bare(status: u16, reason: &str, headers: Vec<(String, String)>) -> (r: Response)
    ensures
        r@ == bare_response(status, reason@, headers.deep_view()),
{
    Response {
        status,
        reason: reason.to_owned(),
        body: Body::Bytes(Vec::new()),
        head_only: true,
        headers,
    }
}

/// What every response with a file tells of it.
pub open spec fn file_fields(path: Seq<char>, f: FileFacts, opts: ResolvedView) -> Seq<
    (Seq<char>, Seq<char>),
> {
    seq![
        ("ETag"@, etag(f.len as int, f.modified as int)),
        ("Last-Modified"@, http_date(f.modified as int)),
        ("Accept-Ranges"@, "bytes"@),
        ("Content-Type"@, media_type(path, opts.mime_types)),
    ]
}

/// The response to a request for a file, if there is anything to know of it.
pub open spec fn file_response(
    path: Seq<char>,
    facts: Option<FileFacts>,
    q: RequestView,
    opts: ResolvedView,
) -> ResponseView {
    match facts {
        None => error_response(404, q, opts.debug),
        Some(f) => if is_fresh(q.headers, f) {
            bare_response(304, "Not Modified"@, Seq::empty())
        } else if q.headers.contains_key("range"@) {
            match range_in(q.headers["range"@], f.len) {
                Some(p) => ResponseView {
                    status: 206,
                    reason: "Partial Content"@,
                    body: BodyView::Part(p.0, (p.1 - p.0 + 1) as u64),
                    head_only: q.method == "HEAD"@,
                    headers: file_fields(path, f, opts).push(
                        (
                            "Content-Range"@,
                            "bytes "@ + decimal(p.0 as int) + "-"@ + decimal(p.1 as int) + "/"@
                                + decimal(f.len as int),
                        ),
                    ),
                },
                None => bare_response(
                    416,
                    "Range Not Satisfiable"@,
                    seq![("Content-Range"@, "bytes */"@ + decimal(f.len as int))],
                ),
            }
        } else {
            ResponseView {
                status: 200,
                reason: "OK"@,
                body: if q.method == "HEAD"@ {
                    BodyView::Bytes(Seq::empty())
                } else {
                    BodyView::File
                },
                head_only: q.method == "HEAD"@,
                headers: file_fields(path, f, opts),
            }
        },
    }
}

/// The response to a request for a file, if there is anything to know of it.
pub fn serve_file(
    path: &str,
    facts: Option<FileFacts>,
    request: &Request,
    opts: &Resolved,
) -> (r: Response)
    ensures
        r@ == file_response(path@, facts, request@, opts@),
{
    let f = match facts {
        None => {
            return respond_error(404, request, opts.debug);
        },
        Some(f) => f,
    };
    let tag = etag_for(f.len, f.modified);
    let date = format_http_date(f.modified);
    let fresh = match request.headers.get("if-none-match") {
        Some(v) => v.as_str().eq(tag.as_str()),
        None => match request.headers.get("if-modified-since") {
            Some(v) => v.as_str().eq(date.as_str()),
            None => false,
        },
    };
    if fresh {
        let none: Vec<(String, String)> = Vec::new();
        assert(none.deep_view() =~= Seq::<(Seq<char>, Seq<char>)>::empty());
        return respond_bare(304, "Not Modified", none);
    }
    let head_only = request.method.as_str().eq("HEAD");
    let content_type = content_type_for(path, &opts.mime_types);
    let mut headers = one_field("ETag", tag.as_str());
    add_field(&mut headers, "Last-Modified", date.as_str());
    add_field(&mut headers, "Accept-Ranges", "bytes");
    add_field(&mut headers, "Content-Type", content_type.as_str());
    assert(headers.deep_view() =~= file_fields(path@, f, opts@));
    if let Some(range) = request.headers.get("range") {
        return match parse_range(range.as_str(), f.len) {
            Some((start, end)) => {
                let mut text = "bytes ".to_owned();
                text.append(decimal_of(start).as_str());
                text.append("-");
                text.append(decimal_of(end).as_str());
                text.append("/");
                text.append(decimal_of(f.len).as_str());
                add_field(&mut headers, "Content-Range", text.as_str());
                Response {
                    status: 206,
                    reason: "Partial Content".to_owned(),
                    body: Body::Part(start, end - start + 1),
                    head_only,
                    headers,
                }
            },
            None => {
                let mut text = "bytes */".to_owned();
                text.append(decimal_of(f.len).as_str());
                respond_bare(416, "Range Not Satisfiable", one_field("Content-Range", text.as_str()))
            },
        };
    }
    let body = if head_only {
        Body::Bytes(Vec::new())
    } else {
        Body::File
    };
    Response { status: 200, reason: "OK".to_owned(), body, head_only, headers }
}

/// A part that is sent lies in the file.
pub proof fn parts_stay_inside(
    path: Seq<char>,
    f: FileFacts,
    q: RequestView,
    opts: ResolvedView,
)
    ensures
        file_response(path, Some(f), q, opts).body matches BodyView::Part(start, len) ==> start + len
            <= f.len && len > 0,
{
    if q.headers.contains_key("range"@) {
        ranges_stay_inside(q.headers["range"@], f.len);
    }
}

// ---------------------------------------------------------------------------
// Error documents
// ---------------------------------------------------------------------------

/// The file of an error document, which has to be looked up.
pub open spec fn document_path(base: Seq<char>, target: Seq<char>) -> Seq<char> {
    under_dir(base, trim_start(target, Class::One('/')))
}

/// Whether an error document is elsewhere.
pub open spec fn is_elsewhere(target: Seq<char>) -> bool {
    starts_with(target, "http://"@) || starts_with(target, "https://"@)
}

/// The response that sends a client elsewhere.
pub open spec fn found(target: Seq<char>) -> ResponseView {
    bare_response(302, "Found"@, seq![("Location"@, target)])
}

/// The response with an error document.
pub open spec fn document_response(
    status: u16,
    path: Seq<char>,
    q: RequestView,
    opts: ResolvedView,
) -> ResponseView {
    ResponseView {
        status,
        reason: reason(status),
        body: BodyView::File,
        head_only: q.method == "HEAD"@,
        headers: seq![("Content-Type"@, media_type(path, opts.mime_types))],
    }
}

/// What the file of an error document is, if it was found: what its path
/// resolves to, and whether that is a file.
pub struct Found {
    /// What the path resolves to.
    pub path: String,
    /// Whether it is a file that can be read.
    pub is_file: bool,
}

/// What was found of an error document.
pub struct FoundView {
    pub path: Seq<char>,
    pub is_file: bool,
}

impl DeepView for Found {
    type V = FoundView;

    open spec fn deep_view(&self) -> FoundView {
        FoundView { path: self.path@, is_file: self.is_file }
    }
}

/// The path of the error document for a status, where it has to be looked up.
pub open spec fn wanted_document(base: Seq<char>, rules: RulesView, status: u16) -> Option<
    Seq<char>,
> {
    match document(rules.error_documents, status) {
        Some(t) => if is_elsewhere(t) {
            None
        } else {
            Some(document_path(base, t))
        },
        None => None,
    }
}

/// The path of the error document for a status, where it has to be looked up.
pub fn error_document_path(base_dir: &str, rules: &Rules, status: u16) -> (r: Option<String>)
    ensures
        r.deep_view() == wanted_document(base_dir@, rules@, status),
{
    match rules.error_document(status) {
        Some(t) => if has_prefix(t.as_str(), "http://") || has_prefix(t.as_str(), "https://") {
            None
        } else {
            let rel = trim_start_of(t.as_str(), Class::One('/'));
            Some(join_path(base_dir, rel.as_str()))
        },
        None => None,
    }
}

/// The answer to a request that fails: a redirect to an error document that is
/// elsewhere, the error document that was found within the served directory, or
/// the page for the error. The second value is the path of the file to send.
pub open spec fn failure(
    base: Seq<char>,
    rules: RulesView,
    status: u16,
    document_found: Option<FoundView>,
    q: RequestView,
    opts: ResolvedView,
) -> (ResponseView, Option<Seq<char>>) {
    match document(rules.error_documents, status) {
        Some(t) => if is_elsewhere(t) {
            (found(t), None)
        } else {
            match document_found {
                Some(f) => if within(base, f.path) && f.is_file {
                    (document_response(status, f.path, q, opts), Some(f.path))
                } else {
                    (error_response(status, q, opts.debug), None)
                },
                None => (error_response(status, q, opts.debug), None),
            }
        },
        None => (error_response(status, q, opts.debug), None),
    }
}

/// The answer to a request that fails, and the path of the file to send with it.
pub fn respond_with_error_document(
    base_dir: &str,
    rules: &Rules,
    status: u16,
    document_found: &Option<Found>,
    request: &Request,
    opts: &Resolved,
) -> (r: (Response, Option<String>))
    ensures
        (r.0@, r.1.deep_view()) == failure(
            base_dir@,
            rules@,
            status,
            document_found.deep_view(),
            request@,
            opts@,
        ),
{
    if let Some(t) = rules.error_document(status) {
        if has_prefix(t.as_str(), "http://") || has_prefix(t.as_str(), "https://") {
            return (respond_bare(302, "Found", one_field("Location", t.as_str())), None);
        }
        if let Some(f) = document_found {
            if is_within(base_dir, f.path.as_str()) && f.is_file {
                let content_type = content_type_for(f.path.as_str(), &opts.mime_types);
                let response = Response {
                    status,
                    reason: reason_phrase(status).to_owned(),
                    body: Body::File,
                    head_only: request.method.as_str().eq("HEAD"),
                    headers: one_field("Content-Type", content_type.as_str()),
                };
                return (response, Some(f.path.clone()));
            }
        }
    }
    (respond_error(status, request, opts.debug), None)
}

/// An error document lies in the served directory, wherever its directive points.
pub proof fn error_documents_stay_inside(
    base: Seq<char>,
    rules: RulesView,
    status: u16,
    document_found: Option<FoundView>,
    q: RequestView,
    opts: ResolvedView,
)
    ensures
        failure(base, rules, status, document_found, q, opts).1 matches Some(p) ==> within(base, p),
{
}

/// A client that sends back the tag of a file, or else the time of its last
/// change, is told that it has the file already, without a body.
pub proof fn known_files_are_not_sent_again(
    path: Seq<char>,
    f: FileFacts,
    q: RequestView,
    opts: ResolvedView,
)
    requires
        if q.headers.contains_key("if-none-match"@) {
            q.headers["if-none-match"@] == file_fields(path, f, opts)[0].1
        } else {
            q.headers.contains_key("if-modified-since"@) && q.headers["if-modified-since"@]
                == file_fields(path, f, opts)[1].1
        },
    ensures
        file_response(path, Some(f), q, opts).status == 304,
        file_response(path, Some(f), q, opts).body == BodyView::Bytes(Seq::empty()),
{
}

} // verus!
