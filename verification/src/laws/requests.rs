//! What a client asks, and how it is answered on the wire.

use vstd::prelude::*;

use crate::digits::{decimal, number64};
use crate::laws::directives::{are_words, line_of, lines_hold_their_words};
use crate::laws::wording::{
    is_tight, is_word, lemma_around, lemma_decimal_digits, lemma_tight, lemma_trim_back,
    numbers_read_back, trimming_takes_space_away,
};
use crate::servers::http::{
    bare, fields, framing_of, goes_on, head_text, keeps_alive, request_in, with_field, Framing,
    RequestView, ResponseView,
};
use crate::text::{
    contains, is_space, lower, same_letters, stands_at, trim, trim_end, words, Class,
};

verus! {

/// A line with its end.
pub open spec fn ended(line: Seq<char>) -> Seq<char> {
    line + seq!['\r', '\n']
}

/// The first line of a request names the method, the path and the version; and where
/// it names no version or no path, they are `HTTP/1.1` and `/`.
pub proof fn requests_name_what_they_want(
    method: Seq<char>,
    path: Seq<char>,
    version: Seq<char>,
    rest: Seq<Seq<char>>,
)
    requires
        is_word(method),
        is_word(path),
        is_word(version),
    ensures
        ({
            let q = request_in(seq![ended(line_of(seq![method, path, version]))] + rest);
            &&& q is Some
            &&& q->0.method == method
            &&& q->0.path == path
            &&& q->0.version == version
        }),
        ({
            let q = request_in(seq![ended(line_of(seq![method, path]))] + rest);
            &&& q is Some
            &&& q->0.method == method
            &&& q->0.path == path
            &&& q->0.version == "HTTP/1.1"@
        }),
        ({
            let q = request_in(seq![ended(method)] + rest);
            &&& q is Some
            &&& q->0.method == method
            &&& q->0.path == "/"@
        }),
        request_in(Seq::<Seq<char>>::empty()) is None,
        request_in(seq![seq!['\r', '\n']] + rest) is None,
{
    let three = seq![method, path, version];
    let two = seq![method, path];
    let one = seq![method];
    assert(are_words(three));
    assert(are_words(two));
    assert(are_words(one));
    lemma_first(three, rest);
    lemma_first(two, rest);
    lemma_first(one, rest);
    assert(line_of(one) == method);
    let blank = seq!['\r', '\n'];
    let none = Seq::<char>::empty();
    lemma_trim_back(none, blank, Class::Space);
    assert(none + blank =~= blank);
    assert((seq![blank] + rest)[0] == blank);
}

proof fn lemma_first(ws: Seq<Seq<char>>, rest: Seq<Seq<char>>)
    requires
        ws.len() > 0,
        are_words(ws),
    ensures
        (seq![ended(line_of(ws))] + rest)[0] == ended(line_of(ws)),
        trim_end(ended(line_of(ws)), Class::Space) == line_of(ws),
        line_of(ws).len() > 0,
        words(line_of(ws)) == ws,
{
    lines_hold_their_words(ws);
    lemma_trim_back(line_of(ws), seq!['\r', '\n'], Class::Space);
}

/// The fields that lines tell of: names in lower case, and the last value of each.
pub open spec fn collected(f: Seq<(Seq<char>, Seq<char>)>) -> Map<Seq<char>, Seq<char>>
    decreases f.len(),
{
    if f.len() == 0 {
        Map::empty()
    } else {
        collected(f.drop_last()).insert(lower(f.last().0), f.last().1)
    }
}

/// Whether a header field can stand on a line as it is.
pub open spec fn is_header(f: (Seq<char>, Seq<char>)) -> bool {
    &&& is_word(f.0) && !f.0.contains(':')
    &&& is_tight(f.1)
    &&& !f.1.contains('\r') && !f.1.contains('\n')
}

/// The line of a header field.
pub open spec fn header_line(f: (Seq<char>, Seq<char>)) -> Seq<char> {
    ended(f.0 + seq![':'] + (seq![' '] + f.1))
}

proof fn lemma_header(m: Map<Seq<char>, Seq<char>>, f: (Seq<char>, Seq<char>))
    requires
        is_header(f),
    ensures
        bare(header_line(f)).len() > 0,
        with_field(m, header_line(f)) == m.insert(lower(f.0), f.1),
{
    let l = f.0 + seq![':'] + (seq![' '] + f.1);
    lemma_trim_back(l, seq!['\r', '\n'], Class::LineEnd);
    assert(l.last() != '\r' && l.last() != '\n') by {
        if f.1.len() > 0 {
            assert(l.last() == f.1[f.1.len() - 1]);
            assert(f.1.contains(f.1[f.1.len() - 1]));
        } else {
            assert(l.last() == ' ');
        }
    }
    assert(bare(header_line(f)) == l);
    lemma_around(f.0, ':', seq![' '] + f.1);
    assert(!is_space(f.0[0]) && !is_space(f.0[f.0.len() - 1]));
    lemma_tight(f.0);
    let none = Seq::<char>::empty();
    trimming_takes_space_away(seq![' '], f.1, none);
    assert(seq![' '] + f.1 + none =~= seq![' '] + f.1);
}

/// The lines of the header fields, up to the empty line, are the fields of a request.
pub proof fn header_lines_are_fields(
    first: Seq<char>,
    f: Seq<(Seq<char>, Seq<char>)>,
    rest: Seq<Seq<char>>,
)
    requires
        trim_end(first, Class::Space).len() > 0,
        forall|i: int| 0 <= i < f.len() ==> is_header(#[trigger] f[i]),
    ensures
        ({
            let all = seq![first] + f.map_values(|x: (Seq<char>, Seq<char>)| header_line(x)) + seq![
                seq!['\r', '\n'],
            ] + rest;
            request_in(all) is Some && request_in(all)->0.headers == collected(f)
        }),
{
    let hs = f.map_values(|x: (Seq<char>, Seq<char>)| header_line(x));
    let all = seq![first] + hs + seq![seq!['\r', '\n']] + rest;
    assert(all[0] == first);
    assert forall|i: int| 0 <= i < f.len() implies #[trigger] all[i + 1] == header_line(f[i]) by {
        assert(hs[i] == header_line(f[i]));
    }
    assert(all[f.len() as int + 1] == seq!['\r', '\n']);
    lemma_collect(all, f, 0);
    assert(f.take(0) =~= Seq::empty());
}

proof fn lemma_collect(all: Seq<Seq<char>>, f: Seq<(Seq<char>, Seq<char>)>, k: int)
    requires
        0 <= k <= f.len(),
        all.len() > f.len() + 1,
        forall|i: int| 0 <= i < f.len() ==> is_header(#[trigger] f[i]),
        forall|i: int| 0 <= i < f.len() ==> #[trigger] all[i + 1] == header_line(f[i]),
        all[f.len() as int + 1] == seq!['\r', '\n'],
    ensures
        fields(all, k + 1, collected(f.take(k))) == collected(f),
    decreases f.len() - k,
{
    if k < f.len() {
        assert(is_header(f[k]));
        assert(all[k + 1] == header_line(f[k]));
        lemma_header(collected(f.take(k)), f[k]);
        lemma_collect(all, f, k + 1);
        assert(f.take(k + 1).drop_last() =~= f.take(k));
        assert(f.take(k + 1).last() == f[k]);
    } else {
        let none = Seq::<char>::empty();
        lemma_trim_back(none, seq!['\r', '\n'], Class::LineEnd);
        assert(none + seq!['\r', '\n'] =~= seq!['\r', '\n']);
        assert(f.take(k) =~= f);
    }
}

/// A connection is kept unless the client says `close`; where it says nothing, the
/// version decides.
pub proof fn connections_are_kept_as_asked(q: RequestView)
    ensures
        q.headers.contains_key("connection"@) && same_letters(
            q.headers["connection"@],
            "close"@,
        ) ==> !keeps_alive(q),
        q.headers.contains_key("connection"@) && !same_letters(
            q.headers["connection"@],
            "close"@,
        ) ==> keeps_alive(q),
        !q.headers.contains_key("connection"@) && q.version == "HTTP/1.1"@ ==> keeps_alive(q),
        !q.headers.contains_key("connection"@) && q.version == "HTTP/1.0"@ ==> !keeps_alive(q),
{
    reveal_strlit("HTTP/1.1");
    reveal_strlit("HTTP/1.0");
    assert("HTTP/1.1"@[7] != "HTTP/1.0"@[7]);
}

/// After a bad request a connection is not used again, and after any other request it is
/// used again where it is kept.
pub proof fn bad_requests_end_connections(keep_alive: bool, status: u16)
    ensures
        !goes_on(keep_alive, 400),
        !goes_on(false, status),
        status != 400 ==> goes_on(true, status),
{
}

/// The body of a request is as long as it says, and comes in chunks where it says so,
/// whatever length it says besides. Without either it is empty.
pub proof fn bodies_are_as_long_as_they_say(q: RequestView, n: u64)
    ensures
        q.headers.contains_key("transfer-encoding"@) && same_letters(
            q.headers["transfer-encoding"@],
            "chunked"@,
        ) ==> framing_of(q) == Framing::Chunked,
        !q.headers.contains_key("transfer-encoding"@) && q.headers.contains_key("content-length"@)
            && q.headers["content-length"@] == decimal(n as int) ==> framing_of(q)
            == Framing::Length(n),
        !q.headers.contains_key("transfer-encoding"@) && !q.headers.contains_key("content-length"@)
            ==> framing_of(q) == Framing::Length(0),
        !q.headers.contains_key("transfer-encoding"@) && q.headers.contains_key("content-length"@)
            && number64(trim(q.headers["content-length"@])) is None ==> framing_of(q)
            == Framing::Length(0),
{
    reveal_strlit("chunked");
    assert(lower("chunked"@) =~= "chunked"@);
    let c = "chunked"@;
    assert(c.subrange(0, c.len() as int) =~= c);
    assert(stands_at(c, c, 0));
    assert(contains(c, c));
    numbers_read_back(n as int);
    lemma_decimal_digits(n as int);
    let d = decimal(n as int);
    assert('0' <= d[0] <= '9');
    assert('0' <= d[d.len() - 1] <= '9');
    lemma_tight(d);
}

/// An answer starts with its status and its reason, then come its length, what becomes
/// of the connection, and its fields, each on a line of its own; then an empty line.
pub proof fn answers_start_with_their_status(
    r: ResponseView,
    len: int,
    name: Seq<char>,
    value: Seq<char>,
)
    requires
        r.headers == seq![(name, value)],
    ensures
        head_text(r, len, true) == ended(
            "HTTP/1.1"@ + seq![' '] + decimal(r.status as int) + seq![' '] + r.reason,
        ) + ended("Content-Length: "@ + decimal(len)) + ended("Connection: keep-alive"@) + ended(
            name + seq![':', ' '] + value,
        ) + ended(Seq::empty()),
        head_text(r, len, false) == ended(
            "HTTP/1.1"@ + seq![' '] + decimal(r.status as int) + seq![' '] + r.reason,
        ) + ended("Content-Length: "@ + decimal(len)) + ended("Connection: close"@) + ended(
            name + seq![':', ' '] + value,
        ) + ended(Seq::empty()),
{
    reveal_strlit("HTTP/1.1 ");
    reveal_strlit("HTTP/1.1");
    reveal_strlit(" ");
    reveal_strlit("\r\nContent-Length: ");
    reveal_strlit("Content-Length: ");
    reveal_strlit("\r\nConnection: ");
    reveal_strlit("Connection: keep-alive");
    reveal_strlit("Connection: close");
    reveal_strlit("keep-alive");
    reveal_strlit("close");
    reveal_strlit("\r\n");
    reveal_strlit(": ");
    assert("HTTP/1.1 "@ =~= "HTTP/1.1"@ + seq![' ']);
    assert(" "@ =~= seq![' ']);
    assert("\r\nContent-Length: "@ =~= seq!['\r', '\n'] + "Content-Length: "@);
    assert("\r\nConnection: "@ + "keep-alive"@ =~= seq!['\r', '\n'] + "Connection: keep-alive"@);
    assert("\r\nConnection: "@ + "close"@ =~= seq!['\r', '\n'] + "Connection: close"@);
    assert("\r\n"@ =~= seq!['\r', '\n']);
    assert(": "@ =~= seq![':', ' ']);
    lemma_one_field(r.headers, name, value);
    lemma_head(r, len, true);
    lemma_head(r, len, false);
}

proof fn lemma_one_field(h: Seq<(Seq<char>, Seq<char>)>, name: Seq<char>, value: Seq<char>)
    requires
        h == seq![(name, value)],
    ensures
        crate::servers::http::field_lines(h) == name + ": "@ + value + "\r\n"@,
{
    reveal_with_fuel(crate::servers::http::field_lines, 2);
    assert(h.drop_last() =~= Seq::empty());
    let none = Seq::<char>::empty();
    assert(none + name =~= name);
}

proof fn lemma_head(r: ResponseView, len: int, keep_alive: bool)
    ensures
        head_text(r, len, keep_alive) == "HTTP/1.1 "@ + decimal(r.status as int) + " "@ + r.reason
            + ("\r\nContent-Length: "@ + decimal(len)) + ("\r\nConnection: "@ + (if keep_alive {
            "keep-alive"@
        } else {
            "close"@
        })) + "\r\n"@ + crate::servers::http::field_lines(r.headers) + "\r\n"@,
{
    let a = "HTTP/1.1 "@ + decimal(r.status as int) + " "@ + r.reason;
    let b = "\r\nContent-Length: "@;
    let d = decimal(len);
    let c = "\r\nConnection: "@;
    let k = if keep_alive {
        "keep-alive"@
    } else {
        "close"@
    };
    assert(a + b + d =~= a + (b + d));
    assert(a + (b + d) + c + k =~= a + (b + d) + (c + k));
}

} // verus!
