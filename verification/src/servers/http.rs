//! Requests and responses as they stand on the wire.

use vstd::prelude::*;
use vstd::utf8::{decode_utf8, encode_utf8, valid_utf8};

use crate::digits::{decimal, decimal_of, number, number64, parse_number, parse_u64};
use crate::outside::utf8_string;
use crate::table::Table;
use crate::text::{
    before, before_char, contains, contains_str, eq_ignore_case, lower, lowered, same_letters,
    split_once, split_once_at, split_words, trim, trim_end, trim_end_of, trimmed, words, Class,
};

verus! {

// ---------------------------------------------------------------------------
// Requests
// ---------------------------------------------------------------------------

/// The first lines of a request.
pub struct Request {
    /// The method.
    pub method: String,
    /// The path as it was sent, with the query.
    pub path: String,
    /// The version of the protocol.
    pub version: String,
    /// The header fields, by their names in lower case.
    pub headers: Table<String>,
}

/// The first lines of a request.
#[verifier::ext_equal]
pub struct RequestView {
    pub method: Seq<char>,
    pub path: Seq<char>,
    pub version: Seq<char>,
    pub headers: Map<Seq<char>, Seq<char>>,
}

impl View for Request {
    type V = RequestView;

    open spec fn view(&self) -> RequestView {
        RequestView {
            method: self.method@,
            path: self.path@,
            version: self.version@,
            headers: self.headers@,
        }
    }
}

/// A word of a line, or a default where the line has fewer.
pub open spec fn word_or(w: Seq<Seq<char>>, i: int, default: Seq<char>) -> Seq<char> {
    if i < w.len() {
        w[i]
    } else {
        default
    }
}

/// A line without its end.
pub open spec fn bare(line: Seq<char>) -> Seq<char> {
    trim_end(line, Class::LineEnd)
}

/// Header fields after one more line.
pub open spec fn with_field(m: Map<Seq<char>, Seq<char>>, line: Seq<char>) -> Map<
    Seq<char>,
    Seq<char>,
> {
    match split_once(bare(line), ':') {
        Some(p) => m.insert(lower(trim(p.0)), trim(p.1)),
        None => m,
    }
}

/// The header fields of the lines up to the first that is empty. Of two with one
/// name the later one counts.
pub open spec fn fields(lines: Seq<Seq<char>>, i: int, m: Map<Seq<char>, Seq<char>>) -> Map<
    Seq<char>,
    Seq<char>,
>
    decreases lines.len() - i,
{
    if i < 0 || i >= lines.len() || bare(lines[i]).len() == 0 {
        m
    } else {
        fields(lines, i + 1, with_field(m, lines[i]))
    }
}

/// The request that lines hold; none where the first is missing or blank.
pub open spec fn request_in(lines: Seq<Seq<char>>) -> Option<RequestView> {
    if lines.len() == 0 || trim_end(lines[0], Class::Space).len() == 0 {
        None
    } else {
        let w = words(trim_end(lines[0], Class::Space));
        Some(
            RequestView {
                method: word_or(w, 0, ""@),
                path: word_or(w, 1, "/"@),
                version: word_or(w, 2, "HTTP/1.1"@),
                headers: fields(lines, 1, Map::empty()),
            },
        )
    }
}

/// Whether the lines of a request end with one: the first if it is blank, and any
/// other if it is empty.
pub open spec fn ends_head(i: int, line: Seq<char>) -> bool {
    if i == 0 {
        trim_end(line, Class::Space).len() == 0
    } else {
        bare(line).len() == 0
    }
}

/// Whether the lines of a request end with the one at a place.
pub fn is_last_line(i: usize, line: &str) -> (r: bool)
    ensures
        r == ends_head(i as int, line@),
{
    let class = if i == 0 {
        Class::Space
    } else {
        Class::LineEnd
    };
    trim_end_of(line, class).as_str().is_empty()
}

proof fn lemma_fields_end(
    lines: Seq<Seq<char>>,
    more: Seq<Seq<char>>,
    i: int,
    m: Map<Seq<char>, Seq<char>>,
)
    requires
        1 <= i <= lines.len(),
        lines.len() > 1 ==> bare(lines.last()).len() == 0,
        i == lines.len() ==> lines.len() > 1,
    ensures
        i < lines.len() ==> fields(lines + more, i, m) == fields(lines, i, m),
    decreases lines.len() - i,
{
    if i < lines.len() {
        assert((lines + more)[i] == lines[i]);
        if bare(lines[i]).len() > 0 {
            lemma_fields_end(lines, more, i + 1, with_field(m, lines[i]));
        }
    }
}

/// A request is known at the line that ends its head: what comes after that is not
/// part of it.
pub proof fn heads_end_with_their_last_line(lines: Seq<Seq<char>>, more: Seq<Seq<char>>)
    requires
        lines.len() > 0,
        ends_head(lines.len() - 1, lines.last()),
    ensures
        request_in(lines + more) == request_in(lines),
{
    assert((lines + more)[0] == lines[0]);
    if lines.len() > 1 {
        lemma_fields_end(lines, more, 1, Map::empty());
    }
}

/// A request that may be there.
pub open spec fn request_of(r: Option<Request>) -> Option<RequestView> {
    match r {
        Some(q) => Some(q@),
        None => None,
    }
}

fn word_at(w: &Vec<String>, i: usize, default: &str) -> (r: String)
    ensures
        r@ == word_or(w.deep_view(), i as int, default@),
{
    if i < w.len() {
        assert(w.deep_view()[i as int] == w@[i as int]@);
        w[i].clone()
    } else {
        default.to_owned()
    }
}

/// The request that lines hold, each with its end.
pub fn parse_request(lines: &Vec<String>) -> (r: Option<Request>)
    ensures
        request_of(r) == request_in(lines.deep_view()),
{
    let n: usize = lines.len();
    let ghost all = lines.deep_view();
    if n == 0 {
        return None;
    }
    assert(all[0] == lines@[0]@);
    let first = trim_end_of(lines[0].as_str(), Class::Space);
    if first.as_str().is_empty() {
        return None;
    }
    let w = split_words(first.as_str());
    let mut headers: Table<String> = Table::new();
    let mut i: usize = 1;
    let mut open = true;
    while open && i < n
        invariant
            1 <= i <= n,
            n == lines@.len(),
            all == lines.deep_view(),
            open ==> fields(all, 1, Map::empty()) == fields(all, i as int, headers@),
            !open ==> fields(all, 1, Map::empty()) == headers@,
        decreases n - i, if open { 1int } else { 0 },
    {
        assert(all[i as int] == lines@[i as int]@);
        let line = trim_end_of(lines[i].as_str(), Class::LineEnd);
        if line.as_str().is_empty() {
            open = false;
        } else {
            if let Some(p) = split_once_at(line.as_str(), ':') {
                let name = trimmed(p.0.as_str());
                let key = lowered(name.as_str());
                headers.insert(key.as_str(), trimmed(p.1.as_str()));
            }
            i = i + 1;
        }
    }
    Some(
        Request {
            method: word_at(&w, 0, ""),
            path: word_at(&w, 1, "/"),
            version: word_at(&w, 2, "HTTP/1.1"),
            headers,
        },
    )
}

/// Whether the connection stays open after a request.
pub open spec fn keeps_alive(q: RequestView) -> bool {
    if q.headers.contains_key("connection"@) {
        !same_letters(q.headers["connection"@], "close"@)
    } else {
        q.version == "HTTP/1.1"@
    }
}

/// How the body of a request is framed.
#[derive(Debug, Clone, Copy, PartialEq, Eq, Structural)]
pub enum Framing {
    /// In chunks.
    Chunked,
    /// By its length.
    Length(u64),
}

/// How the body of a request is framed: chunks win over a length, and a length
/// that is no number counts as none.
pub open spec fn framing_of(q: RequestView) -> Framing {
    if q.headers.contains_key("transfer-encoding"@) && contains(
        lower(q.headers["transfer-encoding"@]),
        "chunked"@,
    ) {
        Framing::Chunked
    } else if q.headers.contains_key("content-length"@) {
        match number64(trim(q.headers["content-length"@])) {
            Some(n) => Framing::Length(n),
            None => Framing::Length(0),
        }
    } else {
        Framing::Length(0)
    }
}

impl Request {
    /// Whether the connection stays open after the request.
    pub fn keep_alive(&self) -> (r: bool)
        ensures
            r == keeps_alive(self@),
    {
        match self.headers.get("connection") {
            Some(v) => !eq_ignore_case(v.as_str(), "close"),
            None => self.version.as_str().eq("HTTP/1.1"),
        }
    }

    /// How the body of the request is framed.
    pub fn framing(&self) -> (r: Framing)
        ensures
            r == framing_of(self@),
    {
        if let Some(v) = self.headers.get("transfer-encoding") {
            let l = lowered(v.as_str());
            if contains_str(l.as_str(), "chunked") {
                return Framing::Chunked;
            }
        }
        match self.headers.get("content-length") {
            Some(v) => {
                let t = trimmed(v.as_str());
                match parse_u64(t.as_str()) {
                    Some(n) => Framing::Length(n),
                    None => Framing::Length(0),
                }
            },
            None => Framing::Length(0),
        }
    }
}

/// Whether a connection goes on to its next request after an answer.
pub open spec fn goes_on(keep_alive: bool, status: u16) -> bool {
    keep_alive && status != 400
}

/// Whether a connection goes on to its next request after an answer.
pub fn connection_continues(keep_alive: bool, status: u16) -> (r: bool)
    ensures
        r == goes_on(keep_alive, status),
{
    keep_alive && status != 400
}

// ---------------------------------------------------------------------------
// Chunked bodies
// ---------------------------------------------------------------------------

/// What bytes hold of a body in chunks.
#[derive(Debug)]
pub enum Chunked {
    /// The whole body, and how many bytes it took.
    Done(Vec<u8>, usize),
    /// No body: the framing is broken or the bytes end too early.
    Malformed,
    /// No body: a line is not text.
    NotText,
    /// The start of one: more bytes are needed.
    More,
}

/// What bytes hold of a body in chunks.
pub enum ChunkedView {
    Done(Seq<u8>, int),
    Malformed,
    NotText,
    More,
}

impl View for Chunked {
    type V = ChunkedView;

    open spec fn view(&self) -> ChunkedView {
        match self {
            Chunked::Done(b, n) => ChunkedView::Done(b@, *n as int),
            Chunked::Malformed => ChunkedView::Malformed,
            Chunked::NotText => ChunkedView::NotText,
            Chunked::More => ChunkedView::More,
        }
    }
}

/// Where the first line end at or after a place stands.
pub open spec fn line_feed(b: Seq<u8>, i: int) -> int
    decreases b.len() - i,
{
    if i < 0 || i >= b.len() || b[i] == 10 {
        i
    } else {
        line_feed(b, i + 1)
    }
}

/// The end of the line at a place: after its line end, or at the end of the
/// bytes where nothing follows them.
pub open spec fn line_stop(b: Seq<u8>, i: int, ended: bool) -> Option<int> {
    let j = line_feed(b, i);
    if i >= b.len() {
        None
    } else if j < b.len() {
        Some(j + 1)
    } else if ended {
        Some(b.len() as int)
    } else {
        None
    }
}

/// What bytes come to that end before the body does.
pub open spec fn unfinished(ended: bool) -> ChunkedView {
    if ended {
        ChunkedView::Malformed
    } else {
        ChunkedView::More
    }
}

/// The size that the first line of a chunk gives, without its extensions.
pub open spec fn chunk_size(line: Seq<char>) -> Option<int> {
    number(trim(before(bare(line), ';')), 16, u64::MAX as int)
}

/// What follows the last chunk: lines up to one that is empty.
pub open spec fn trailers(b: Seq<u8>, i: int, ended: bool) -> ChunkedView
    decreases b.len() - i,
{
    match line_stop(b, i, ended) {
        None => unfinished(ended),
        Some(k) => if i < 0 || k <= i || k > b.len() || !valid_utf8(b.subrange(i, k)) {
            ChunkedView::NotText
        } else if bare(decode_utf8(b.subrange(i, k))).len() == 0 {
            ChunkedView::Done(Seq::empty(), k)
        } else {
            trailers(b, k, ended)
        },
    }
}

/// A body with more bytes before it.
pub open spec fn preceded(head: Seq<u8>, c: ChunkedView) -> ChunkedView {
    match c {
        ChunkedView::Done(body, n) => ChunkedView::Done(head + body, n),
        _ => c,
    }
}

/// The chunks from a place on: each has a line with its size, that many bytes
/// and a line end; the last has the size zero, and lines may follow it.
pub open spec fn chunks(b: Seq<u8>, i: int, ended: bool) -> ChunkedView
    decreases b.len() - i,
{
    match line_stop(b, i, ended) {
        None => unfinished(ended),
        Some(k) => if i < 0 || k <= i || k > b.len() || !valid_utf8(b.subrange(i, k)) {
            ChunkedView::NotText
        } else {
            match chunk_size(decode_utf8(b.subrange(i, k))) {
                None => ChunkedView::Malformed,
                Some(n) => if n <= 0 {
                    trailers(b, k, ended)
                } else if k + n + 2 > b.len() {
                    unfinished(ended)
                } else if b[k + n] != 13 || b[k + n + 1] != 10 {
                    ChunkedView::Malformed
                } else {
                    preceded(b.subrange(k, k + n), chunks(b, k + n + 2, ended))
                },
            }
        },
    }
}

/// The end of the line at a place.
fn find_line_stop(b: &[u8], i: usize, ended: bool) -> (r: Option<usize>)
    requires
        i <= b@.len(),
    ensures
        match r {
            Some(k) => line_stop(b@, i as int, ended) == Some(k as int) && i < k <= b@.len(),
            None => line_stop(b@, i as int, ended) is None,
        },
{
    let n: usize = b.len();
    if i >= n {
        return None;
    }
    let mut j: usize = i;
    while j < n && b[j] != 10
        invariant
            i <= j <= n,
            n == b@.len(),
            line_feed(b@, i as int) == line_feed(b@, j as int),
        decreases n - j,
    {
        j = j + 1;
    }
    if j < n {
        Some(j + 1)
    } else if ended {
        Some(n)
    } else {
        None
    }
}

/// The bytes from a place up to another.
pub fn copy_bytes(b: &[u8], from: usize, to: usize) -> (r: Vec<u8>)
    requires
        from <= to <= b@.len(),
    ensures
        r@ == b@.subrange(from as int, to as int),
{
    let mut out: Vec<u8> = Vec::new();
    append_bytes(&mut out, b, from, to);
    assert(out@ =~= b@.subrange(from as int, to as int));
    out
}

fn append_bytes(out: &mut Vec<u8>, b: &[u8], from: usize, to: usize)
    requires
        from <= to <= b@.len(),
    ensures
        final(out)@ == old(out)@ + b@.subrange(from as int, to as int),
{
    let ghost start = out@;
    let mut i: usize = from;
    assert(start + b@.subrange(from as int, from as int) =~= start);
    while i < to
        invariant
            from <= i <= to,
            to <= b@.len(),
            out@ == start + b@.subrange(from as int, i as int),
        decreases to - i,
    {
        out.push(b[i]);
        assert(out@ =~= start + b@.subrange(from as int, i + 1));
        i = i + 1;
    }
}

fn read_trailers(b: &[u8], from: usize, ended: bool, body: Vec<u8>) -> (r: Chunked)
    requires
        from <= b@.len(),
    ensures
        r@ == preceded(body@, trailers(b@, from as int, ended)),
{
    let mut i: usize = from;
    loop
        invariant
            i <= b@.len(),
            trailers(b@, from as int, ended) == trailers(b@, i as int, ended),
        decreases b@.len() - i,
    {
        match find_line_stop(b, i, ended) {
            None => {
                return if ended {
                    Chunked::Malformed
                } else {
                    Chunked::More
                };
            },
            Some(k) => {
                match utf8_string(copy_bytes(b, i, k)) {
                    None => {
                        return Chunked::NotText;
                    },
                    Some(line) => {
                        let t = trim_end_of(line.as_str(), Class::LineEnd);
                        if t.as_str().is_empty() {
                            assert(body@ + Seq::<u8>::empty() =~= body@);
                            return Chunked::Done(body, k);
                        }
                    },
                }
                i = k;
            },
        }
    }
}

/// Takes a body out of its chunks. Where the bytes end, nothing may follow them:
/// the last line then needs no line end.
pub fn read_chunked_body(b: &[u8], ended: bool) -> (r: Chunked)
    ensures
        r@ == chunks(b@, 0, ended),
{
    let total: usize = b.len();
    let mut body: Vec<u8> = Vec::new();
    let mut i: usize = 0;
    proof {
        match chunks(b@, 0, ended) {
            ChunkedView::Done(rest, n) => {
                assert(Seq::<u8>::empty() + rest =~= rest);
            },
            _ => {},
        }
    }
    loop
        invariant
            i <= total,
            total == b@.len(),
            chunks(b@, 0, ended) == preceded(body@, chunks(b@, i as int, ended)),
        decreases total - i,
    {
        match find_line_stop(b, i, ended) {
            None => {
                return if ended {
                    Chunked::Malformed
                } else {
                    Chunked::More
                };
            },
            Some(k) => {
                let line = match utf8_string(copy_bytes(b, i, k)) {
                    None => {
                        return Chunked::NotText;
                    },
                    Some(s) => s,
                };
                let t = trim_end_of(line.as_str(), Class::LineEnd);
                let head = before_char(t.as_str(), ';');
                let digits = trimmed(head.as_str());
                let n: u64 = match parse_number(digits.as_str(), 16, u64::MAX) {
                    None => {
                        return Chunked::Malformed;
                    },
                    Some(v) => v,
                };
                if n == 0 {
                    return read_trailers(b, k, ended, body);
                }
                let left: usize = total - k;
                if left < 2 || n > (left - 2) as u64 {
                    return if ended {
                        Chunked::Malformed
                    } else {
                        Chunked::More
                    };
                }
                let stop: usize = k + n as usize;
                if b[stop] != 13 || b[stop + 1] != 10 {
                    return Chunked::Malformed;
                }
                let ghost before = body@;
                append_bytes(&mut body, b, k, stop);
                proof {
                    match chunks(b@, stop + 2, ended) {
                        ChunkedView::Done(rest, m) => {
                            let part = b@.subrange(k as int, stop as int);
                            assert(before + (part + rest) =~= before + part + rest);
                        },
                        _ => {},
                    }
                }
                i = stop + 2;
            },
        }
    }
}

// ---------------------------------------------------------------------------
// Responses
// ---------------------------------------------------------------------------

/// Where the body of a response comes from.
#[derive(Debug)]
pub enum Body {
    /// These bytes.
    Bytes(Vec<u8>),
    /// Bytes of the file that is served: the first one, and how many.
    Part(u64, u64),
    /// The whole file that is served.
    File,
}

/// Where the body of a response comes from.
pub enum BodyView {
    Bytes(Seq<u8>),
    Part(u64, u64),
    File,
}

impl View for Body {
    type V = BodyView;

    open spec fn view(&self) -> BodyView {
        match self {
            Body::Bytes(b) => BodyView::Bytes(b@),
            Body::Part(start, len) => BodyView::Part(*start, *len),
            Body::File => BodyView::File,
        }
    }
}

/// A response.
#[derive(Debug)]
pub struct Response {
    /// The status.
    pub status: u16,
    /// The words after the status.
    pub reason: String,
    /// The body, of which at least the length is sent.
    pub body: Body,
    /// Whether the body itself stays behind.
    pub head_only: bool,
    /// Header fields besides those on the length and the connection.
    pub headers: Vec<(String, String)>,
}

/// A response.
pub struct ResponseView {
    pub status: u16,
    pub reason: Seq<char>,
    pub body: BodyView,
    pub head_only: bool,
    pub headers: Seq<(Seq<char>, Seq<char>)>,
}

impl View for Response {
    type V = ResponseView;

    open spec fn view(&self) -> ResponseView {
        ResponseView {
            status: self.status,
            reason: self.reason@,
            body: self.body@,
            head_only: self.head_only,
            headers: self.headers.deep_view(),
        }
    }
}

/// Header fields as lines.
pub open spec fn field_lines(h: Seq<(Seq<char>, Seq<char>)>) -> Seq<char>
    decreases h.len(),
{
    if h.len() == 0 {
        Seq::empty()
    } else {
        field_lines(h.drop_last()) + h.last().0 + ": "@ + h.last().1 + "\r\n"@
    }
}

/// Header fields as lines.
pub fn lines_of_fields(headers: &Vec<(String, String)>) -> (r: String)
    ensures
        r@ == field_lines(headers.deep_view()),
{
    let mut out = String::new();
    let ghost h = headers.deep_view();
    let n: usize = headers.len();
    let mut i: usize = 0;
    assert(h.take(0) =~= Seq::empty());
    assert(out@ =~= Seq::<char>::empty());
    while i < n
        invariant
            i <= n,
            n == headers@.len(),
            h == headers.deep_view(),
            out@ == field_lines(h.take(i as int)),
        decreases n - i,
    {
        assert(h.take(i + 1).drop_last() =~= h.take(i as int));
        assert(h.take(i + 1).last() == (headers@[i as int].0@, headers@[i as int].1@));
        out.append(headers[i].0.as_str());
        out.append(": ");
        out.append(headers[i].1.as_str());
        out.append("\r\n");
        i = i + 1;
    }
    assert(h.take(n as int) =~= h);
    out
}

/// The lines before the body of a response.
pub open spec fn head_text(r: ResponseView, len: int, keep_alive: bool) -> Seq<char> {
    "HTTP/1.1 "@ + decimal(r.status as int) + " "@ + r.reason + "\r\nContent-Length: "@ + decimal(
        len,
    ) + "\r\nConnection: "@ + (if keep_alive {
        "keep-alive"@
    } else {
        "close"@
    }) + "\r\n"@ + field_lines(r.headers) + "\r\n"@
}

impl Response {
    /// The lines before the body, which has the given length.
    pub fn head(&self, len: u64, keep_alive: bool) -> (r: String)
        ensures
            r@ == head_text(self@, len as int, keep_alive),
    {
        let mut out = "HTTP/1.1 ".to_owned();
        out.append(decimal_of(self.status as u64).as_str());
        out.append(" ");
        out.append(self.reason.as_str());
        out.append("\r\nContent-Length: ");
        out.append(decimal_of(len).as_str());
        out.append("\r\nConnection: ");
        out.append(
            if keep_alive {
                "keep-alive"
            } else {
                "close"
            },
        );
        out.append("\r\n");
        out.append(lines_of_fields(&self.headers).as_str());
        out.append("\r\n");
        out
    }
}

/// The bytes of text.
pub fn bytes_of(s: &str) -> (r: Vec<u8>)
    ensures
        r@ == encode_utf8(s@),
{
    let b = s.as_bytes();
    let n: usize = b.len();
    let out = copy_bytes(b, 0, n);
    assert(b@.subrange(0, n as int) =~= b@);
    out
}

/// One header field.
pub fn one_field(name: &str, value: &str) -> (r: Vec<(String, String)>)
    ensures
        r.deep_view() == seq![(name@, value@)],
{
    let mut v: Vec<(String, String)> = Vec::new();
    v.push((name.to_owned(), value.to_owned()));
    assert(v.deep_view() =~= seq![(name@, value@)]);
    v
}

/// Adds a header field.
pub fn add_field(v: &mut Vec<(String, String)>, name: &str, value: &str)
    ensures
        final(v).deep_view() == old(v).deep_view().push((name@, value@)),
{
    let ghost start = v.deep_view();
    v.push((name.to_owned(), value.to_owned()));
    assert(v.deep_view() =~= start.push((name@, value@)));
}

} // verus!
