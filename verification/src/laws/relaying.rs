//! What passes between a client and the development server.

use vstd::prelude::*;

use crate::digits::{decimal, hex};
use crate::laws::outputs::lemma_last_part;
use crate::laws::requests::ended;
use crate::laws::wording::{
    is_tight, is_word, lemma_around, lemma_decimal_digits, lemma_lacking, lemma_tight,
    lemma_trim_back, numbers_read_back, trimming_takes_space_away,
};
use crate::outside::{is_field_name, is_field_value};
use crate::servers::http::RequestView;
use crate::servers::http3::{advertised, piece_added};
use crate::servers::upstream::{
    address_only, after_chunk, after_line, asks_for_websocket, connection_field, exchange_after,
    framing, gateway_response, handed_on, head_in, hops, is_chunked, relayed, relayed_size, scheme,
    starting_response, stated_length, status_of, switches, upstream_request, BodyFraming,
    ChunkRelay, EventView, ExchangeView, HeadFault, Need, Step, UpstreamHeadView,
};
use crate::text::{
    contains, is_space, lower, same_letters, stands_at, trim, trim_end, Class,
};

verus! {

// ---------------------------------------------------------------------------
// Asking
// ---------------------------------------------------------------------------

/// Whether a field speaks of one connection only.
pub open spec fn is_private(name: Seq<char>) -> bool {
    ||| name == "connection"@
    ||| name == "keep-alive"@
    ||| name == "proxy-authenticate"@
    ||| name == "proxy-authorization"@
    ||| name == "proxy-connection"@
    ||| name == "te"@
    ||| name == "trailer"@
    ||| name == "transfer-encoding"@
    ||| name == "content-length"@
}

/// Fields that speak of one connection stay behind; an upgrade is handed on only where
/// it is asked for; and every other field that can be sent is handed on.
pub proof fn fields_are_handed_on(
    p: Seq<(Seq<char>, Seq<char>)>,
    name: Seq<char>,
    value: Seq<char>,
    websocket: bool,
)
    ensures
        is_private(name) ==> handed_on(p.push((name, value)), websocket) == handed_on(p, websocket),
        name == "upgrade"@ && !websocket ==> handed_on(p.push((name, value)), websocket)
            == handed_on(p, websocket),
        name == "upgrade"@ && websocket && is_field_name(name) && is_field_value(value)
            ==> handed_on(p.push((name, value)), websocket) == handed_on(p, websocket).push(
            (lower(name), value),
        ),
        !is_private(name) && name != "upgrade"@ && is_field_name(name) && is_field_value(value)
            ==> handed_on(p.push((name, value)), websocket) == handed_on(p, websocket).push(
            (lower(name), value),
        ),
        !is_field_name(name) || !is_field_value(value) ==> handed_on(
            p.push((name, value)),
            websocket,
        ) == handed_on(p, websocket),
        handed_on(Seq::empty(), websocket) == Seq::<(Seq<char>, Seq<char>)>::empty(),
{
    assert(p.push((name, value)).drop_last() =~= p);
    lemma_upgrade_is_not_private();
}

proof fn lemma_upgrade_is_not_private()
    ensures
        !is_private("upgrade"@),
{
    reveal_strlit("upgrade");
    reveal_strlit("connection");
    reveal_strlit("keep-alive");
    reveal_strlit("proxy-authenticate");
    reveal_strlit("proxy-authorization");
    reveal_strlit("proxy-connection");
    reveal_strlit("te");
    reveal_strlit("trailer");
    reveal_strlit("transfer-encoding");
    reveal_strlit("content-length");
    assert("upgrade"@.len() == 7 && "trailer"@.len() == 7);
    assert("upgrade"@[0] != "trailer"@[0]);
    assert("connection"@.len() == 10 && "keep-alive"@.len() == 10 && "te"@.len() == 2);
    assert("proxy-authenticate"@.len() == 18 && "proxy-authorization"@.len() == 19);
    assert("proxy-connection"@.len() == 16 && "transfer-encoding"@.len() == 17);
    assert("content-length"@.len() == 14);
}

/// Each server on the way adds where the request came from behind what was there.
pub proof fn the_way_is_kept(q: RequestView, name: Seq<char>, last: Seq<char>)
    ensures
        q.headers.contains_key(name) ==> hops(q, name, last) == q.headers[name] + seq![',', ' ']
            + last,
        !q.headers.contains_key(name) ==> hops(q, name, last) == last,
        scheme(true) == "https"@,
        scheme(false) == "http"@,
        connection_field(true) == "Upgrade"@,
        connection_field(false) == "close"@,
{
    reveal_strlit(", ");
    assert(", "@ =~= seq![',', ' ']);
}

/// The address of a client is what stands before its port.
pub proof fn addresses_stand_before_ports(address: Seq<char>, port: Seq<char>)
    requires
        !port.contains(':'),
    ensures
        address_only(address + seq![':'] + port) == address,
{
    lemma_last_part(address, ':', port);
}

/// A client asks for a connection of another kind by two fields, and by nothing less.
pub proof fn two_fields_ask_for_a_websocket(q: RequestView)
    ensures
        q.headers.contains_key("upgrade"@) && same_letters(q.headers["upgrade"@], "websocket"@)
            && q.headers.contains_key("connection"@) && same_letters(
            q.headers["connection"@],
            "upgrade"@,
        ) ==> asks_for_websocket(q),
        !q.headers.contains_key("upgrade"@) ==> !asks_for_websocket(q),
        !q.headers.contains_key("connection"@) ==> !asks_for_websocket(q),
        q.headers.contains_key("upgrade"@) && !same_letters(q.headers["upgrade"@], "websocket"@)
            ==> !asks_for_websocket(q),
        switches(true, 101),
        !switches(false, 101),
        !switches(true, 200),
{
    reveal_strlit("upgrade");
    let c = "upgrade"@;
    assert(lower(c) =~= c);
    assert(c.subrange(0, c.len() as int) =~= c);
    assert(stands_at(c, c, 0));
    assert(contains(c, c));
}

/// What is asked of the development server is what the client asked.
pub proof fn requests_are_handed_on(
    q: RequestView,
    target: Seq<char>,
    cause: Seq<char>,
    ip: Seq<char>,
    tls: bool,
    websocket: bool,
)
    requires
        crate::outside::is_method(q.method),
    ensures
        upstream_request(q, Ok(target), ip, tls, websocket) is Ok,
        (upstream_request(q, Ok(target), ip, tls, websocket)->Ok_0).method == q.method,
        (upstream_request(q, Ok(target), ip, tls, websocket)->Ok_0).target == target,
        upstream_request(q, Err(cause), ip, tls, websocket) is Err,
{
}

// ---------------------------------------------------------------------------
// Answers
// ---------------------------------------------------------------------------

/// The first line of an answer gives its status and its reason.
pub proof fn status_lines_are_read(version: Seq<char>, code: u16, words_after: Seq<char>)
    requires
        is_word(version),
        is_word(words_after) || (is_tight(words_after) && words_after.len() > 0),
    ensures
        status_of(
            ended(version + seq![' '] + (decimal(code as int) + seq![' '] + words_after)),
        ) == Some((code, words_after)),
        status_of(ended(version + seq![' '] + decimal(code as int))) == Some((code, ""@)),
{
    let d = decimal(code as int);
    lemma_decimal_digits(code as int);
    numbers_read_back(code as int);
    assert(!d.contains(' ')) by {
        if d.contains(' ') {
            let i = choose|i: int| 0 <= i < d.len() && d[i] == ' ';
            assert('0' <= d[i] <= '9');
        }
    }
    assert(!version.contains(' ')) by {
        if version.contains(' ') {
            let i = choose|i: int| 0 <= i < version.len() && version[i] == ' ';
            assert(!is_space(version[i]));
        }
    }
    assert(!is_space(words_after[words_after.len() - 1]));
    let rest = d + seq![' '] + words_after;
    let l = version + seq![' '] + rest;
    assert(l.last() == words_after.last());
    lemma_trim_back(l, seq!['\r', '\n'], Class::Space);
    assert(trim_end(l, Class::Space) == l);
    lemma_around(version, ' ', rest);
    lemma_around(d, ' ', words_after);
    let m = version + seq![' '] + d;
    assert(m.last() == d[d.len() - 1]);
    assert('0' <= d[d.len() - 1] <= '9');
    lemma_trim_back(m, seq!['\r', '\n'], Class::Space);
    assert(trim_end(m, Class::Space) == m);
    lemma_around(version, ' ', d);
    lemma_lacking(d, ' ');
}

/// No answer is an error, and so is one without a status.
pub proof fn answers_need_a_status(lines: Seq<Seq<char>>)
    ensures
        lines.len() == 0 ==> head_in(lines) == Err::<UpstreamHeadView, HeadFault>(HeadFault::Empty),
        lines.len() > 0 && status_of(lines[0]) is None ==> head_in(lines) == Err::<
            UpstreamHeadView,
            HeadFault,
        >(HeadFault::Malformed),
        lines.len() > 0 && status_of(lines[0]) is Some ==> head_in(lines) is Ok && (head_in(
            lines,
        )->Ok_0).status == (status_of(lines[0])->0).0 && (head_in(lines)->Ok_0).reason
            == (status_of(lines[0])->0).1,
{
}

/// How the end of an answer is known: there is no body behind `HEAD` and behind some
/// statuses; otherwise chunks count before a length, and without either the answer goes
/// on until the connection ends.
pub proof fn answers_have_an_end(
    h: Seq<(Seq<char>, Seq<char>)>,
    status: u16,
    i: int,
    n: u64,
)
    ensures
        framing(h, true, status) == BodyFraming::Nothing,
        framing(h, false, 204) == BodyFraming::Nothing,
        framing(h, false, 304) == BodyFraming::Nothing,
        100 <= status <= 199 ==> framing(h, false, status) == BodyFraming::Nothing,
        200 <= status && status != 204 && status != 304 && 0 <= i < h.len() && same_letters(
            h[i].0,
            "transfer-encoding"@,
        ) && same_letters(h[i].1, "chunked"@) ==> framing(h, false, status) == BodyFraming::Chunked,
        200 <= status && status != 204 && status != 304 && h == seq![
            ("Content-Length"@, decimal(n as int)),
        ] ==> framing(h, false, status) == BodyFraming::Length(n),
        200 <= status && status != 204 && status != 304 && h.len() == 0 ==> framing(
            h,
            false,
            status,
        ) == BodyFraming::UntilClose,
{
    reveal_strlit("Content-Length");
    reveal_strlit("content-length");
    reveal_strlit("transfer-encoding");
    assert(lower("Content-Length"@) =~= "content-length"@);
    assert(lower("content-length"@) =~= "content-length"@);
    assert(lower("Content-Length"@).len() == 14);
    assert(lower("transfer-encoding"@).len() == 17);
    let d = decimal(n as int);
    lemma_decimal_digits(n as int);
    assert('0' <= d[0] <= '9');
    assert('0' <= d[d.len() - 1] <= '9');
    lemma_tight(d);
    numbers_read_back(n as int);
    let one = seq![("Content-Length"@, d)];
    assert(!is_chunked(one)) by {
        if is_chunked(one) {
            let k = choose|k: int|
                0 <= k < one.len() && same_letters((#[trigger] one[k]).0, "transfer-encoding"@)
                    && same_letters(one[k].1, "chunked"@);
            assert(lower(one[k].0).len() == 14);
        }
    }
    assert(one[0].0 == "Content-Length"@);
    assert(stated_length(one, 0) == Some(n));
}

/// Fields that speak of one connection do not reach the client, save those of a
/// connection that changes its kind; all others do.
pub proof fn answers_are_handed_on(
    h: Seq<(Seq<char>, Seq<char>)>,
    f: (Seq<char>, Seq<char>),
    keep_upgrade: bool,
)
    ensures
        is_private(lower(f.0)) && lower(f.0) != "connection"@ ==> relayed(h.push(f), keep_upgrade)
            == relayed(h, keep_upgrade),
        lower(f.0) == "connection"@ || lower(f.0) == "upgrade"@ ==> relayed(h.push(f), false)
            == relayed(h, false),
        lower(f.0) == "connection"@ || lower(f.0) == "upgrade"@ ==> relayed(h.push(f), true)
            == relayed(h, true).push(f),
        !is_private(lower(f.0)) && lower(f.0) != "upgrade"@ ==> relayed(h.push(f), keep_upgrade)
            == relayed(h, keep_upgrade).push(f),
        relayed(Seq::empty(), keep_upgrade) == Seq::<(Seq<char>, Seq<char>)>::empty(),
{
    assert(h.push(f).drop_last() =~= h);
    lemma_upgrade_is_not_private();
}

/// Chunks are handed on one by one: a size, then as many bytes, until the size is zero;
/// then lines up to an empty one.
pub proof fn chunks_are_handed_on(c: ChunkRelay, line: Seq<char>, n: u64)
    ensures
        c.need is Size && relayed_size(line) == n && n > 0 ==> after_line(c, Some(line)).need
            == Need::Chunk(n),
        c.need is Size && relayed_size(line) == 0 ==> after_line(c, Some(line)).need
            == Need::Trailer,
        c.need is Trailer && trim(line).len() == 0 ==> after_line(c, Some(line)).need
            == Need::Nothing,
        c.need is Trailer && trim(line).len() > 0 ==> after_line(c, Some(line)).need
            == Need::Trailer,
        c.need is Size || c.need is Trailer ==> after_line(c, None).need == Need::Nothing,
        after_line(c, Some(line)).total == c.total,
        c.need == Need::Chunk(n) ==> after_chunk(c).need == Need::Size,
        c.need == Need::Chunk(n) && c.total + n <= u64::MAX ==> after_chunk(c).total == c.total
            + n,
{
}

/// The size of a chunk is in hexadecimal, up to a semicolon.
pub proof fn sizes_are_hexadecimal(n: u32, more: Seq<char>)
    requires
        is_word(more),
    ensures
        relayed_size(ended(hex(n as int))) == n,
        relayed_size(ended(hex(n as int) + seq![';'] + more)) == n,
{
    let x = hex(n as int);
    crate::digits::written_reads_back(n as int, 16);
    lemma_hex_digits(n as int);
    assert(is_hex(x[0]) && is_hex(x[x.len() - 1]));
    assert(is_tight(x));
    let e = seq!['\r', '\n'];
    let none = Seq::<char>::empty();
    assert(!x.contains(';')) by {
        if x.contains(';') {
            let i = choose|i: int| 0 <= i < x.len() && x[i] == ';';
            assert(is_hex(x[i]));
        }
    }
    trimming_takes_space_away(none, x, e);
    assert(none + x + e =~= x + e);
    lemma_lacking(x, ';');
    lemma_tight(x);
    let y = x + seq![';'] + more;
    assert(!is_space(more[more.len() - 1]));
    assert(y[0] == x[0] && y.last() == more.last());
    trimming_takes_space_away(none, y, e);
    assert(none + y + e =~= y + e);
    lemma_around(x, ';', more);
}

/// Whether a character is a hexadecimal digit as numbers are written.
pub open spec fn is_hex(c: char) -> bool {
    48 <= c as u32 <= 57 || 97 <= c as u32 <= 102
}

proof fn lemma_hex_digits(n: int)
    requires
        0 <= n,
    ensures
        hex(n).len() > 0,
        forall|i: int| 0 <= i < hex(n).len() ==> is_hex(#[trigger] hex(n)[i]),
    decreases n,
{
    if n >= 16 {
        lemma_hex_digits(n / 16);
        assert(hex(n) == hex(n / 16).push(crate::digits::digit(n % 16)));
    }
}

// ---------------------------------------------------------------------------
// The exchange
// ---------------------------------------------------------------------------

/// A request is sent once the server is ready and reached, and then its answer is read. A
/// server that is not ready yet is answered for with status 503; a failure with 502.
pub proof fn exchanges_go_step_by_step(
    q: RequestView,
    debug: bool,
    upstream: Seq<char>,
    step: Step,
    cause: Seq<char>,
    lines: Seq<Seq<char>>,
    h: UpstreamHeadView,
)
    ensures
        exchange_after(q, debug, upstream, EventView::Ready(true)) == ExchangeView::Connect,
        exchange_after(q, debug, upstream, EventView::Ready(false)) is Answer,
        (exchange_after(q, debug, upstream, EventView::Ready(false))->Answer_0).status == 503,
        exchange_after(q, debug, upstream, EventView::Connected) == ExchangeView::Send,
        exchange_after(q, debug, upstream, EventView::Sent) == ExchangeView::ReadHead,
        exchange_after(q, debug, upstream, EventView::Failed(step, cause)) is Answer,
        (exchange_after(q, debug, upstream, EventView::Failed(step, cause))->Answer_0).status
            == 502,
        head_in(lines) is Err ==> exchange_after(q, debug, upstream, EventView::Head(lines))
            is Answer && (exchange_after(
            q,
            debug,
            upstream,
            EventView::Head(lines),
        )->Answer_0).status == 502,
        head_in(lines) == Ok::<UpstreamHeadView, HeadFault>(h) && asks_for_websocket(q) && h.status
            == 101 ==> exchange_after(q, debug, upstream, EventView::Head(lines))
            == ExchangeView::Upgrade(h),
        head_in(lines) == Ok::<UpstreamHeadView, HeadFault>(h) && !(asks_for_websocket(q)
            && h.status == 101) ==> exchange_after(q, debug, upstream, EventView::Head(lines))
            == ExchangeView::Stream(h, framing(h.headers, q.method == "HEAD"@, h.status)),
{
}

/// A client that has to wait is told to come back after a second.
pub proof fn clients_are_told_to_wait(q: RequestView, debug: bool, detail: Seq<char>)
    ensures
        starting_response(q).status == 503,
        starting_response(q).headers.last() == ("Retry-After"@, "1"@),
        starting_response(q).head_only <==> q.method == "HEAD"@,
        gateway_response(q, debug, detail).status == 502,
        gateway_response(q, debug, detail).reason == "Bad Gateway"@,
        gateway_response(q, debug, detail).head_only <==> q.method == "HEAD"@,
{
}

/// A body is collected up to a limit, and beyond it not at all.
pub proof fn bodies_are_collected(body: Seq<u8>, piece: Seq<u8>, limit: int, port: u16)
    ensures
        body.len() + piece.len() <= limit ==> piece_added((body, false), piece, limit) == (
            body + piece,
            false,
        ),
        body.len() + piece.len() > limit ==> piece_added((body, false), piece, limit) == (
            Seq::<u8>::empty(),
            true,
        ),
        piece_added((body, true), piece, limit) == (body, true),
        advertised(port) == "h3=\":"@ + decimal(port as int) + seq!['"'],
{
    reveal_strlit("\"");
    assert("\""@ =~= seq!['"']);
}

} // verus!
