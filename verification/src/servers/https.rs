//! The client side of HTTPS, as far as the authority needs it.

use vstd::prelude::*;
use vstd::slice::slice_subrange;

use crate::digits::{decimal, decimal_of, number, number16, parse_number, parse_u16};
use crate::outside::{lossy_string, lossy_text};
use crate::servers::http::{copy_bytes, field_lines, lines_of_fields};
use crate::servers::scripts::{find_subslice, found_from};
use crate::table::Table;
use crate::text::{
    chars_of, eq_ignore_case, find, find_from, find_in, lower, lowered, position, same_letters,
    split_once, split_once_at, split_words, string_of, strip_prefix, trim, trimmed, without_prefix,
    words,
};

verus! {

/// Where a request goes.
#[derive(Debug)]
pub struct HttpsTarget {
    /// The host.
    pub host: String,
    /// The port.
    pub port: u16,
    /// The path.
    pub path: String,
}

/// The host and the path of an address without its scheme.
pub open spec fn host_and_path(rest: Seq<char>) -> (Seq<char>, Seq<char>) {
    let i = position(rest, '/');
    if i < rest.len() {
        (rest.take(i), rest.skip(i))
    } else {
        (rest, "/"@)
    }
}

/// A host and its port; one that is no number is the usual one.
pub open spec fn host_and_port(s: Seq<char>) -> (Seq<char>, u16) {
    match split_once(s, ':') {
        Some((h, p)) => (
            h,
            match number16(p) {
                Some(n) => n,
                None => 443,
            },
        ),
        None => (s, 443),
    }
}

/// Where a request to an address goes; nothing for another scheme than HTTPS.
pub open spec fn https_parts(url: Seq<char>) -> Option<(Seq<char>, u16, Seq<char>)> {
    match strip_prefix(url, "https://"@) {
        None => None,
        Some(rest) => {
            let (host, path) = host_and_path(rest);
            let (name, port) = host_and_port(host);
            Some((name, port, path))
        },
    }
}

/// What an address of another scheme is reported as.
pub const ONLY_HTTPS: &'static str = "only https:// URLs are supported";

/// Where a request to an address goes.
pub fn https_target(url: &str) -> (r: Option<HttpsTarget>)
    ensures
        match r {
            Some(t) => https_parts(url@) == Some((t.host@, t.port, t.path@)),
            None => https_parts(url@) is None,
        },
{
    let rest = match without_prefix(url, "https://") {
        None => {
            return None;
        },
        Some(s) => s,
    };
    let v = chars_of(rest.as_str());
    let n: usize = v.len();
    let i: usize = find_from(v.as_slice(), 0, '/');
    assert(v@.skip(0) =~= v@);
    let (host_port, path) = if i < n {
        let a = string_of(v.as_slice(), 0, i);
        let b = string_of(v.as_slice(), i, n);
        assert(a@ =~= rest@.take(i as int));
        assert(b@ =~= rest@.skip(i as int));
        (a, b)
    } else {
        (rest, "/".to_owned())
    };
    match split_once_at(host_port.as_str(), ':') {
        Some((host, p)) => {
            let port: u16 = match parse_u16(p.as_str()) {
                Some(n) => n,
                None => 443,
            };
            Some(HttpsTarget { host, port, path })
        },
        None => Some(HttpsTarget { host: host_port, port: 443, path }),
    }
}

/// The lines of a request before its body, which has a length if there is one.
pub open spec fn request_lines(
    method: Seq<char>,
    host: Seq<char>,
    path: Seq<char>,
    fields: Seq<(Seq<char>, Seq<char>)>,
    len: Option<usize>,
) -> Seq<char> {
    method + " "@ + path + " HTTP/1.1\r\nHost: "@ + host + "\r\nConnection: close\r\n"@
        + field_lines(fields) + (match len {
        Some(n) => "Content-Length: "@ + decimal(n as int) + "\r\n"@,
        None => ""@,
    }) + "\r\n"@
}

/// The lines of a request before its body, which has a length if there is one.
pub fn https_request_text(
    method: &str,
    target: &HttpsTarget,
    fields: &Vec<(String, String)>,
    len: Option<usize>,
) -> (r: String)
    ensures
        r@ == request_lines(method@, target.host@, target.path@, fields.deep_view(), len),
{
    let mut out = method.to_owned();
    out.append(" ");
    out.append(target.path.as_str());
    out.append(" HTTP/1.1\r\nHost: ");
    out.append(target.host.as_str());
    out.append("\r\nConnection: close\r\n");
    out.append(lines_of_fields(fields).as_str());
    let length = match len {
        Some(n) => {
            let mut s = "Content-Length: ".to_owned();
            s.append(decimal_of(n as u64).as_str());
            s.append("\r\n");
            s
        },
        None => "".to_owned(),
    };
    out.append(length.as_str());
    out.append("\r\n");
    out
}

// ---------------------------------------------------------------------------
// Replies
// ---------------------------------------------------------------------------

/// The pieces of text from a place on, which line ends part.
pub open spec fn pieces_from(s: Seq<char>, i: int) -> Seq<Seq<char>>
    decreases s.len() - i,
{
    match find(s, "\r\n"@, i) {
        Some(k) => if 0 <= i <= k && k + 2 <= s.len() {
            seq![s.subrange(i, k)] + pieces_from(s, k + 2)
        } else {
            seq![s.skip(i)]
        },
        None => seq![s.skip(i)],
    }
}

fn split_pieces(s: &str) -> (r: Vec<String>)
    ensures
        r.deep_view() == pieces_from(s@, 0),
{
    proof {
        reveal_strlit("\r\n");
    }
    let chars = chars_of(s);
    let v = chars.as_slice();
    let end = chars_of("\r\n");
    let n: usize = v.len();
    let mut out: Vec<String> = Vec::new();
    let mut i: usize = 0;
    assert(out.deep_view() =~= Seq::<Seq<char>>::empty());
    assert(out.deep_view() + pieces_from(s@, 0) =~= pieces_from(s@, 0));
    while i <= n
        invariant
            i <= n,
            n == v@.len(),
            v@ == s@,
            end@ == "\r\n"@,
            end@.len() == 2,
            out.deep_view() + pieces_from(s@, i as int) == pieces_from(s@, 0),
        decreases n - i,
    {
        let ghost front = out.deep_view();
        match find_in(v, end.as_slice(), i) {
            Some(k) => {
                let piece = string_of(v, i, k);
                out.push(piece);
                assert(out.deep_view() =~= front.push(piece@));
                assert(front.push(piece@) + pieces_from(s@, k + 2) =~= front + (seq![piece@]
                    + pieces_from(s@, k + 2)));
                i = k + 2;
            },
            None => {
                let piece = string_of(v, i, n);
                assert(piece@ =~= s@.skip(i as int));
                out.push(piece);
                assert(out.deep_view() =~= front + seq![piece@]);
                return out;
            },
        }
    }
    out
}

/// Header fields with that of a line, if it is one.
pub open spec fn field_added(m: Map<Seq<char>, Seq<char>>, line: Seq<char>) -> Map<
    Seq<char>,
    Seq<char>,
> {
    match split_once(line, ':') {
        Some((k, v)) => m.insert(lower(trim(k)), trim(v)),
        None => m,
    }
}

/// The header fields of lines from a place on. Of two with one name the later one
/// counts.
pub open spec fn fields_of(p: Seq<Seq<char>>, i: int, m: Map<Seq<char>, Seq<char>>) -> Map<
    Seq<char>,
    Seq<char>,
>
    decreases p.len() - i,
{
    if i < 0 || i >= p.len() {
        m
    } else {
        fields_of(p, i + 1, field_added(m, p[i]))
    }
}

/// The status in the first line of a reply.
pub open spec fn reply_status(line: Seq<char>) -> Option<u16> {
    if words(line).len() > 1 {
        number16(words(line)[1])
    } else {
        None
    }
}

/// The status and the header fields in the text of a head.
pub open spec fn head_of(text: Seq<char>) -> Option<(u16, Map<Seq<char>, Seq<char>>)> {
    let p = pieces_from(text, 0);
    match reply_status(p[0]) {
        Some(s) => Some((s, fields_of(p, 1, Map::empty()))),
        None => None,
    }
}

/// The status and the header fields in the text of a head.
pub fn read_head(text: &str) -> (r: Option<(u16, Table<String>)>)
    ensures
        match r {
            Some((s, t)) => head_of(text@) == Some((s, t@)),
            None => head_of(text@) is None,
        },
{
    let pieces = split_pieces(text);
    let ghost p = pieces.deep_view();
    let n: usize = pieces.len();
    if n == 0 {
        assert(pieces_from(text@, 0).len() > 0);
        return None;
    }
    assert(p[0] == pieces@[0]@);
    let w = split_words(pieces[0].as_str());
    let ghost ws = w.deep_view();
    if w.len() < 2 {
        return None;
    }
    assert(ws[1] == w@[1]@);
    let status: u16 = match parse_u16(w[1].as_str()) {
        None => {
            return None;
        },
        Some(s) => s,
    };
    let mut headers: Table<String> = Table::new();
    let mut i: usize = 1;
    while i < n
        invariant
            1 <= i <= n,
            n == pieces@.len(),
            p == pieces.deep_view(),
            fields_of(p, 1, Map::empty()) == fields_of(p, i as int, headers@),
        decreases n - i,
    {
        assert(p[i as int] == pieces@[i as int]@);
        if let Some((k, v)) = split_once_at(pieces[i].as_str(), ':') {
            let kt = trimmed(k.as_str());
            let name = lowered(kt.as_str());
            headers.insert(name.as_str(), trimmed(v.as_str()));
        }
        i = i + 1;
    }
    Some((status, headers))
}

/// The size that the line before a chunk gives; what gives none ends the body.
pub open spec fn piece_size(line: Seq<u8>) -> int {
    match number(trim(lossy_text(line)), 16, usize::MAX as int) {
        Some(n) => n,
        None => 0,
    }
}

/// The line end.
pub open spec fn line_end() -> Seq<u8> {
    seq![13u8, 10u8]
}

/// The body that bytes in chunks hold, up to the first that is not whole.
pub open spec fn dechunked(d: Seq<u8>) -> Seq<u8>
    decreases d.len(),
{
    match found_from(d, line_end(), 0) {
        None => Seq::empty(),
        Some(k) => {
            let size = piece_size(d.take(k));
            let stop = k + 2 + size;
            if k < 0 || size <= 0 || stop > d.len() {
                Seq::empty()
            } else {
                d.subrange(k + 2, stop) + dechunked(
                    d.skip(
                        if stop + 2 < d.len() {
                            stop + 2
                        } else {
                            d.len() as int
                        },
                    ),
                )
            }
        },
    }
}

/// The body that bytes in chunks hold, up to the first that is not whole.
pub fn dechunk(data: &[u8]) -> (r: Vec<u8>)
    ensures
        r@ == dechunked(data@),
{
    let mut out: Vec<u8> = Vec::new();
    let end: Vec<u8> = vec![13u8, 10u8];
    assert(end@ =~= line_end());
    let mut rest = data;
    let mut going = true;
    assert(out@ + dechunked(rest@) =~= dechunked(data@));
    while going
        invariant
            end@ == line_end(),
            going ==> out@ + dechunked(rest@) == dechunked(data@),
            !going ==> out@ == dechunked(data@),
        decreases if going {
            rest@.len() + 1
        } else {
            0
        },
    {
        assert(out@ + Seq::<u8>::empty() =~= out@);
        let total: usize = rest.len();
        match find_subslice(rest, end.as_slice()) {
            None => {
                going = false;
            },
            Some(k) => {
                let line = slice_subrange(rest, 0, k);
                assert(line@ =~= rest@.take(k as int));
                let text = lossy_string(line);
                let digits = trimmed(text.as_str());
                let size: usize = match parse_number(digits.as_str(), 16, usize::MAX as u64) {
                    Some(n) => n as usize,
                    None => 0,
                };
                if size == 0 || size > total - (k + 2) {
                    going = false;
                } else {
                    let stop: usize = k + 2 + size;
                    let ghost front = out@;
                    let ghost before = rest@;
                    let mut part = copy_bytes(rest, k + 2, stop);
                    out.append(&mut part);
                    let from: usize = if total - stop > 2 {
                        stop + 2
                    } else {
                        total
                    };
                    rest = slice_subrange(rest, from, total);
                    assert(rest@ =~= before.skip(from as int));
                    assert(out@ + dechunked(rest@) =~= front + (before.subrange(
                        k + 2,
                        stop as int,
                    ) + dechunked(rest@)));
                }
            },
        }
    }
    out
}

/// A reply.
pub struct HttpsReply {
    /// The status.
    pub status: u16,
    /// The header fields, by their names in lower case.
    pub headers: Table<String>,
    /// The body.
    pub body: Vec<u8>,
}

/// What is wrong with a reply.
#[derive(Debug, Clone, Copy, PartialEq, Eq, Structural)]
pub enum ReplyFault {
    /// The head does not end.
    NoEnd,
    /// The first line has no status.
    NoStatus,
}

impl ReplyFault {
    /// What is wrong, in words.
    pub fn message(self) -> (r: &'static str)
        ensures
            r@ == match self {
                ReplyFault::NoEnd => "malformed HTTP response (no header terminator)"@,
                ReplyFault::NoStatus => "malformed HTTP status line"@,
            },
    {
        match self {
            ReplyFault::NoEnd => "malformed HTTP response (no header terminator)",
            ReplyFault::NoStatus => "malformed HTTP status line",
        }
    }
}

/// The end of a head.
pub open spec fn head_end() -> Seq<u8> {
    seq![13u8, 10u8, 13u8, 10u8]
}

/// A body as the header fields frame it: in chunks, or up to a length.
pub open spec fn framed(m: Map<Seq<char>, Seq<char>>, body: Seq<u8>) -> Seq<u8> {
    if m.contains_key("transfer-encoding"@) && same_letters(
        m["transfer-encoding"@],
        "chunked"@,
    ) {
        dechunked(body)
    } else if m.contains_key("content-length"@) {
        match number(m["content-length"@], 10, usize::MAX as int) {
            Some(n) => if n < body.len() {
                body.take(n)
            } else {
                body
            },
            None => body,
        }
    } else {
        body
    }
}

/// A reply: its status, its header fields and its body, or what is wrong with it.
pub open spec fn reply_in(raw: Seq<u8>) -> Result<
    (u16, Map<Seq<char>, Seq<char>>, Seq<u8>),
    ReplyFault,
> {
    match found_from(raw, head_end(), 0) {
        None => Err(ReplyFault::NoEnd),
        Some(k) => match head_of(lossy_text(raw.take(k))) {
            None => Err(ReplyFault::NoStatus),
            Some((s, m)) => Ok((s, m, framed(m, raw.skip(k + 4)))),
        },
    }
}

/// A reply by its value, or what is wrong with it.
pub open spec fn reply_view(r: Result<HttpsReply, ReplyFault>) -> Result<
    (u16, Map<Seq<char>, Seq<char>>, Seq<u8>),
    ReplyFault,
> {
    match r {
        Ok(h) => Ok((h.status, h.headers@, h.body@)),
        Err(e) => Err(e),
    }
}

/// A body as the header fields frame it.
pub fn frame_body(headers: &Table<String>, body: &[u8]) -> (r: Vec<u8>)
    ensures
        r@ == framed(headers@, body@),
{
    let n: usize = body.len();
    let chunked = match headers.get("transfer-encoding") {
        Some(v) => eq_ignore_case(v.as_str(), "chunked"),
        None => false,
    };
    if chunked {
        return dechunk(body);
    }
    let mut stop: usize = n;
    if let Some(v) = headers.get("content-length") {
        if let Some(len) = parse_number(v.as_str(), 10, usize::MAX as u64) {
            if len < n as u64 {
                stop = len as usize;
            }
        }
    }
    let out = copy_bytes(body, 0, stop);
    assert(body@.subrange(0, n as int) =~= body@);
    assert(body@.subrange(0, stop as int) =~= body@.take(stop as int));
    out
}

/// A reply, from all the bytes of a connection.
pub fn parse_http_response(raw: &[u8]) -> (r: Result<HttpsReply, ReplyFault>)
    ensures
        reply_view(r) == reply_in(raw@),
{
    let end: Vec<u8> = vec![13u8, 10u8, 13u8, 10u8];
    assert(end@ =~= head_end());
    let total: usize = raw.len();
    let k: usize = match find_subslice(raw, end.as_slice()) {
        None => {
            return Err(ReplyFault::NoEnd);
        },
        Some(k) => k,
    };
    let head = slice_subrange(raw, 0, k);
    assert(head@ =~= raw@.take(k as int));
    let text = lossy_string(head);
    match read_head(text.as_str()) {
        None => Err(ReplyFault::NoStatus),
        Some((status, headers)) => {
            let rest = slice_subrange(raw, k + 4, total);
            assert(rest@ =~= raw@.skip(k + 4));
            let body = frame_body(&headers, rest);
            Ok(HttpsReply { status, headers, body })
        },
    }
}

} // verus!
