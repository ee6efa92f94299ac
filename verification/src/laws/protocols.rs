//! Odd cases of what goes over the wire.

use vstd::prelude::*;

use crate::digits::decimal;
use crate::laws::requests::ended;
use crate::laws::wording::{is_word, lemma_around, lemma_lacking, lemma_tight, numbers_read_back};
use crate::outside::lossy_text;
use crate::servers::compress::{varied, varies, weighs};
use crate::servers::fields::{field_text, has_field, with_value};
use crate::servers::http::{
    bare, chunk_size, chunks, fields, line_stop, with_field, BodyView, ChunkedView, RequestView,
};
use crate::servers::https::{field_added, reply_status, request_lines};
use crate::servers::scripts::{cgi_answer, cgi_fields, cgi_split, has_type};
use crate::servers::upstream::{but_connection, upstream_lines};
use crate::servers::pages::HTML;
use crate::text::{lower, same_letters, split, trim, words};
use vstd::utf8::{decode_utf8, valid_utf8};

verus! {

// ---------------------------------------------------------------------------
// Requests
// ---------------------------------------------------------------------------

/// A line of a request's head that names no field is passed over.
pub proof fn lines_without_a_field_are_passed_over(
    lines: Seq<Seq<char>>,
    i: int,
    m: Map<Seq<char>, Seq<char>>,
)
    requires
        0 <= i < lines.len(),
        bare(lines[i]).len() > 0,
        !bare(lines[i]).contains(':'),
    ensures
        with_field(m, lines[i]) == m,
        fields(lines, i, m) == fields(lines, i + 1, m),
{
    lemma_lacking(bare(lines[i]), ':');
}

/// A chunk whose size is no number is malformed, and so is one that does not end where it
/// should; one that is not there yet is waited for, unless nothing more comes.
pub proof fn broken_chunks_are_refused(b: Seq<u8>, i: int, k: int, n: int, closed: bool)
    requires
        0 <= i < k <= b.len(),
        line_stop(b, i, closed) == Some(k),
        valid_utf8(b.subrange(i, k)),
    ensures
        chunk_size(decode_utf8(b.subrange(i, k))) is None ==> chunks(b, i, closed)
            == ChunkedView::Malformed,
        chunk_size(decode_utf8(b.subrange(i, k))) == Some(n) && n > 0 && k + n + 2 <= b.len() && (
        b[k + n] != 13 || b[k + n + 1] != 10) ==> chunks(b, i, closed) == ChunkedView::Malformed,
        chunk_size(decode_utf8(b.subrange(i, k))) == Some(n) && n > 0 && k + n + 2 > b.len()
            && closed ==> chunks(b, i, closed) == ChunkedView::Malformed,
        chunk_size(decode_utf8(b.subrange(i, k))) == Some(n) && n > 0 && k + n + 2 > b.len()
            && !closed ==> chunks(b, i, closed) == ChunkedView::More,
{
}

/// Bytes that are no text are no size of a chunk; and where nothing came, more is waited
/// for, unless nothing more comes.
pub proof fn missing_chunks_are_waited_for(b: Seq<u8>, i: int, k: int, closed: bool)
    requires
        0 <= i,
    ensures
        line_stop(b, i, closed) == Some(k) && i < k <= b.len() && !valid_utf8(b.subrange(i, k))
            ==> chunks(b, i, closed) == ChunkedView::NotText,
        line_stop(b, i, false) is None ==> chunks(b, i, false) == ChunkedView::More,
        line_stop(b, i, true) is None ==> chunks(b, i, true) == ChunkedView::Malformed,
{
}

// ---------------------------------------------------------------------------
// Answers
// ---------------------------------------------------------------------------

/// Without fields that could be read an output is all body, blank line and all.
pub proof fn outputs_with_odd_fields_are_bodies(raw: Seq<u8>, i: int, stop: int, head_only: bool)
    requires
        cgi_split(raw) == Some((i, stop)),
        cgi_fields(split(lossy_text(raw.take(i)), '\n')) is None,
    ensures
        cgi_answer(raw, head_only).status == 200,
        cgi_answer(raw, head_only).body == BodyView::Bytes(raw),
        cgi_answer(raw, head_only).headers == seq![("Content-Type"@, HTML@)],
{
    assert(raw.skip(0) =~= raw);
    let none = Seq::<(Seq<char>, Seq<char>)>::empty();
    assert(!has_type(none));
    assert(none.push(("Content-Type"@, HTML@)) =~= seq![("Content-Type"@, HTML@)]);
}

/// A blank line may also be two line feeds, where no other one comes.
pub proof fn blank_lines_may_be_short(head: Seq<u8>, body: Seq<u8>)
    requires
        !head.contains(10u8),
        !head.contains(13u8),
        !body.contains(13u8),
    ensures
        cgi_split(head + seq![10u8, 10] + body) == Some(
            (head.len() as int, head.len() as int + 2),
        ),
{
    let gap = seq![10u8, 10];
    let wide = seq![13u8, 10, 13, 10];
    let raw = head + gap + body;
    let n = head.len() as int;
    assert forall|j: int| 0 <= j < raw.len() implies #[trigger] raw[j] != 13 by {
        if j < n {
            assert(raw[j] == head[j]);
            assert(head.contains(head[j]));
        } else if j >= n + 2 {
            assert(raw[j] == body[j - n - 2]);
            assert(body.contains(body[j - n - 2]));
        }
    }
    lemma_not_found(raw, wide, 0);
    assert(raw.subrange(n, n + 2) =~= gap);
    lemma_found_first(raw, gap, 0, n);
}

proof fn lemma_not_found(h: Seq<u8>, n: Seq<u8>, i: int)
    requires
        0 <= i,
        n.len() > 0,
        forall|j: int| 0 <= j < h.len() ==> #[trigger] h[j] != n[0],
    ensures
        crate::servers::scripts::found_from(h, n, i) is None,
    decreases h.len() + 1 - i,
{
    if i + n.len() <= h.len() {
        if h.subrange(i, i + n.len()) == n {
            assert(h.subrange(i, i + n.len())[0] == h[i]);
        }
        lemma_not_found(h, n, i + 1);
    }
}

proof fn lemma_found_first(h: Seq<u8>, n: Seq<u8>, i: int, at: int)
    requires
        0 <= i <= at,
        n.len() > 0,
        at + n.len() <= h.len(),
        h.subrange(at, at + n.len()) == n,
        forall|j: int| i <= j < at ==> #[trigger] h[j] != n[0],
    ensures
        crate::servers::scripts::found_from(h, n, i) == Some(at),
    decreases at - i,
{
    if i < at {
        if h.subrange(i, i + n.len()) == n {
            assert(h.subrange(i, i + n.len())[0] == h[i]);
        }
        lemma_found_first(h, n, i + 1, at);
    }
}

/// The kind of an output is its own where it says so, in letters of any case.
pub proof fn outputs_may_say_their_kind(f: Seq<(Seq<char>, Seq<char>)>, i: int)
    ensures
        0 <= i < f.len() && same_letters(f[i].0, "content-type"@) ==> has_type(f),
        (forall|j: int| 0 <= j < f.len() ==> !same_letters((#[trigger] f[j]).0, "content-type"@))
            ==> !has_type(f),
{
}

/// Text may be had in more than one form, and says so to those who keep it.
pub proof fn text_says_that_it_varies(h: Seq<(Seq<char>, Seq<char>)>)
    ensures
        !has_field(h, "vary"@) ==> varied(h) == with_value(h, "vary"@, "Accept-Encoding"@),
        has_field(h, "vary"@) && field_text(h, 0, "vary"@) == "Accept-Encoding"@ ==> varied(h) == h,
        has_field(h, "vary"@) && field_text(h, 0, "vary"@) == "Origin"@ ==> varied(h) == with_value(
            h,
            "vary"@,
            "Origin, Accept-Encoding"@,
        ),
{
    reveal_strlit("Accept-Encoding");
    reveal_strlit("accept-encoding");
    reveal_strlit("Origin");
    reveal_strlit(", Accept-Encoding");
    reveal_strlit("Origin, Accept-Encoding");
    assert(lower("Accept-Encoding"@) =~= "accept-encoding"@);
    assert(lower("accept-encoding"@) =~= "accept-encoding"@);
    let a = "Accept-Encoding"@;
    assert(!a.contains(','));
    lemma_lacking(a, ',');
    lemma_tight(a);
    assert(varies(a)) by {
        assert(split(a, ',')[0] == a);
        assert(same_letters(trim(split(a, ',')[0]), "accept-encoding"@));
    }
    let o = "Origin"@;
    assert(!o.contains(','));
    lemma_lacking(o, ',');
    lemma_tight(o);
    assert(!varies(o)) by {
        if varies(o) {
            let i = choose|i: int|
                0 <= i < split(o, ',').len() && same_letters(
                    trim(#[trigger] split(o, ',')[i]),
                    "accept-encoding"@,
                );
            assert(split(o, ',')[i] == o);
            assert(lower(o).len() == 6);
            assert(lower("accept-encoding"@).len() == 15);
        }
    }
    assert(o + ", Accept-Encoding"@ =~= "Origin, Accept-Encoding"@);
    let e = Seq::<char>::empty();
    if !has_field(h, "vary"@) {
        lemma_no_text(h, 0, "vary"@);
        lemma_lacking(e, ',');
        lemma_tight(e);
        assert(!varies(e)) by {
            if varies(e) {
                let i = choose|i: int|
                    0 <= i < split(e, ',').len() && same_letters(
                        trim(#[trigger] split(e, ',')[i]),
                        "accept-encoding"@,
                    );
                assert(split(e, ',')[i] == e);
                assert(lower(e).len() == 0);
                assert(lower("accept-encoding"@).len() == 15);
            }
        }
    }
}

proof fn lemma_no_text(h: Seq<(Seq<char>, Seq<char>)>, i: int, name: Seq<char>)
    requires
        0 <= i,
        !has_field(h, name),
    ensures
        field_text(h, i, name) == Seq::<char>::empty(),
    decreases h.len() - i,
{
    if i < h.len() {
        assert(!same_letters(h[i].0, name));
        lemma_no_text(h, i + 1, name);
    }
}

/// A weight below nothing is nothing; and one without bounds is something.
pub proof fn odd_weights_are_known(v: Seq<char>)
    ensures
        v.len() > 0 && v[0] == '-' ==> !weighs(v),
        !weighs(Seq::empty()),
        same_letters(v, "inf"@) ==> weighs(v),
        same_letters(v, "infinity"@) ==> weighs(v),
{
    reveal_strlit("inf");
    reveal_strlit("infinity");
    assert(lower("inf"@) =~= "inf"@);
    assert(lower("infinity"@) =~= "infinity"@);
    if same_letters(v, "inf"@) || same_letters(v, "infinity"@) {
        assert(lower(v)[0] == 'i');
        assert(lower(v)[0] == crate::text::lower_char(v[0]));
        assert(v.skip(0) =~= v);
    }
}

// ---------------------------------------------------------------------------
// Asking others
// ---------------------------------------------------------------------------

/// What is asked of another server: the method, the path, the host, that the connection
/// ends, the fields, and how much follows.
pub proof fn other_servers_are_asked(
    method: Seq<char>,
    host: Seq<char>,
    path: Seq<char>,
    n: usize,
)
    ensures
        request_lines(method, host, path, Seq::empty(), None) == ended(
            method + seq![' '] + path + " HTTP/1.1"@,
        ) + ended("Host: "@ + host) + ended("Connection: close"@) + ended(Seq::empty()),
        request_lines(method, host, path, Seq::empty(), Some(n)) == ended(
            method + seq![' '] + path + " HTTP/1.1"@,
        ) + ended("Host: "@ + host) + ended("Connection: close"@) + ended(
            "Content-Length: "@ + decimal(n as int),
        ) + ended(Seq::empty()),
{
    reveal_strlit(" ");
    reveal_strlit(" HTTP/1.1\r\nHost: ");
    reveal_strlit(" HTTP/1.1");
    reveal_strlit("Host: ");
    reveal_strlit("\r\nConnection: close\r\n");
    reveal_strlit("Connection: close");
    reveal_strlit("Content-Length: ");
    reveal_strlit("\r\n");
    reveal_strlit("");
    let a = method + " "@ + path;
    assert(a =~= method + seq![' '] + path);
    assert(" HTTP/1.1\r\nHost: "@ =~= " HTTP/1.1"@ + seq!['\r', '\n'] + "Host: "@);
    assert("\r\nConnection: close\r\n"@ =~= seq!['\r', '\n'] + "Connection: close"@ + seq![
        '\r',
        '\n',
    ]);
    assert("\r\n"@ =~= seq!['\r', '\n']);
    let front = a + " HTTP/1.1\r\nHost: "@ + host + "\r\nConnection: close\r\n"@;
    let parts = ended(a + " HTTP/1.1"@) + ended("Host: "@ + host) + ended("Connection: close"@);
    assert(front =~= parts);
    let none = Seq::<(Seq<char>, Seq<char>)>::empty();
    assert(crate::servers::http::field_lines(none) =~= Seq::empty());
    assert(request_lines(method, host, path, none, None) =~= parts + ended(Seq::empty()));
    assert(request_lines(method, host, path, none, Some(n)) =~= parts + ended(
        "Content-Length: "@ + decimal(n as int),
    ) + ended(Seq::empty()));
}

/// The status of a reply is its second word; and its fields are kept under their names in
/// lower case.
pub proof fn replies_are_read(
    line: Seq<char>,
    code: u16,
    m: Map<Seq<char>, Seq<char>>,
    name: Seq<char>,
    value: Seq<char>,
)
    requires
        is_word(name) && !name.contains(':'),
    ensures
        words(line).len() > 1 && words(line)[1] == decimal(code as int) ==> reply_status(line)
            == Some(code),
        words(line).len() <= 1 ==> reply_status(line) is None,
        field_added(m, name + seq![':'] + value) == m.insert(lower(name), trim(value)),
{
    numbers_read_back(code as int);
    lemma_around(name, ':', value);
    assert(!crate::text::is_space(name[0]) && !crate::text::is_space(name[name.len() - 1]));
    lemma_tight(name);
}

/// What is said to the development server about a connection is the server's own word.
pub proof fn connections_are_not_handed_on(
    p: Seq<(Seq<char>, Seq<char>)>,
    name: Seq<char>,
    value: Seq<char>,
)
    ensures
        but_connection(p.push(("connection"@, value))) == but_connection(p),
        name != "connection"@ ==> but_connection(p.push((name, value))) == but_connection(p).push(
            (name, value),
        ),
        but_connection(Seq::empty()) == Seq::<(Seq<char>, Seq<char>)>::empty(),
{
    assert(p.push(("connection"@, value)).drop_last() =~= p);
    assert(p.push((name, value)).drop_last() =~= p);
}


/// What is sent to the development server: what the client asked, its fields without the
/// one on its connection, where it came from, and that the connection ends.
pub proof fn the_development_server_is_asked(q: RequestView, ip: Seq<char>)
    requires
        q.headers == Map::<Seq<char>, Seq<char>>::empty(),
    ensures
        upstream_lines(q, ip, true, false) == ended(
            q.method + seq![' '] + q.path + " HTTP/1.1"@,
        ) + ended("X-Forwarded-For: "@ + ip) + ended("X-Forwarded-Proto: https"@) + ended(
            "Connection: close"@,
        ) + ended(Seq::empty()),
        upstream_lines(q, ip, false, true) == ended(
            q.method + seq![' '] + q.path + " HTTP/1.1"@,
        ) + ended("X-Forwarded-For: "@ + ip) + ended("X-Forwarded-Proto: http"@) + ended(
            "Connection: Upgrade"@,
        ) + ended(Seq::empty()),
{
    let none = Seq::<(Seq<char>, Seq<char>)>::empty();
    crate::table::lemma_pairs_of(none);
    assert(crate::table::to_map(none) == q.headers);
    assert(but_connection(none) =~= none);
    assert(crate::servers::http::field_lines(none) =~= Seq::empty());
    reveal_strlit(" ");
    reveal_strlit(" HTTP/1.1\r\n");
    reveal_strlit(" HTTP/1.1");
    reveal_strlit("X-Forwarded-For: ");
    reveal_strlit("\r\nX-Forwarded-Proto: ");
    reveal_strlit("X-Forwarded-Proto: https");
    reveal_strlit("X-Forwarded-Proto: http");
    reveal_strlit("https");
    reveal_strlit("http");
    reveal_strlit("\r\nConnection: ");
    reveal_strlit("Connection: close");
    reveal_strlit("Connection: Upgrade");
    reveal_strlit("close");
    reveal_strlit("Upgrade");
    reveal_strlit("\r\n\r\n");
    let a = q.method + " "@ + q.path;
    assert(a =~= q.method + seq![' '] + q.path);
    assert(" HTTP/1.1\r\n"@ =~= " HTTP/1.1"@ + seq!['\r', '\n']);
    assert("\r\nX-Forwarded-Proto: "@ + "https"@ =~= seq!['\r', '\n']
        + "X-Forwarded-Proto: https"@);
    assert("\r\nX-Forwarded-Proto: "@ + "http"@ =~= seq!['\r', '\n'] + "X-Forwarded-Proto: http"@);
    assert("\r\nConnection: "@ + "close"@ =~= seq!['\r', '\n'] + "Connection: close"@);
    assert("\r\nConnection: "@ + "Upgrade"@ =~= seq!['\r', '\n'] + "Connection: Upgrade"@);
    assert("\r\n\r\n"@ =~= seq!['\r', '\n', '\r', '\n']);
    let front = a + " HTTP/1.1\r\n"@ + Seq::<char>::empty() + "X-Forwarded-For: "@ + ip;
    let start = ended(a + " HTTP/1.1"@) + ("X-Forwarded-For: "@ + ip);
    assert(front =~= start);
    let one = front + ("\r\nX-Forwarded-Proto: "@ + "https"@) + ("\r\nConnection: "@ + "close"@);
    assert(front + "\r\nX-Forwarded-Proto: "@ + "https"@ + "\r\nConnection: "@ + "close"@ =~= one);
    assert(one + "\r\n\r\n"@ =~= ended(a + " HTTP/1.1"@) + ended("X-Forwarded-For: "@ + ip) + ended(
        "X-Forwarded-Proto: https"@,
    ) + ended("Connection: close"@) + ended(Seq::empty()));
    let two = front + ("\r\nX-Forwarded-Proto: "@ + "http"@) + ("\r\nConnection: "@ + "Upgrade"@);
    assert(front + "\r\nX-Forwarded-Proto: "@ + "http"@ + "\r\nConnection: "@ + "Upgrade"@ =~= two);
    assert(two + "\r\n\r\n"@ =~= ended(a + " HTTP/1.1"@) + ended("X-Forwarded-For: "@ + ip) + ended(
        "X-Forwarded-Proto: http"@,
    ) + ended("Connection: Upgrade"@) + ended(Seq::empty()));
}

} // verus!
