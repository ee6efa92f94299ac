//! Header fields that the server adds to every response.

use vstd::prelude::*;

use crate::configs::resolve::{Resolved, ResolvedView};
use crate::outside::{header_name, header_value_ok, is_field_name, is_field_value};
use crate::servers::fields::{contains_field, has_field};
use crate::servers::files::{bare_response, respond_bare};
use crate::servers::http::{add_field, Request, RequestView, Response, ResponseView};
use crate::table::{pairs_of, Table};
use crate::text::{lower, same_letters};

verus! {

/// Header fields with one more, unless there is one with its name already or it
/// cannot be sent.
pub open spec fn with_default(
    h: Seq<(Seq<char>, Seq<char>)>,
    name: Seq<char>,
    value: Seq<char>,
) -> Seq<(Seq<char>, Seq<char>)> {
    if !is_field_name(name) || has_field(h, name) || !is_field_value(value) {
        h
    } else {
        h.push((lower(name), value))
    }
}

/// Adds a header field, unless there is one with its name already or it cannot
/// be sent.
pub fn insert_if_absent(h: &mut Vec<(String, String)>, name: &str, value: &str)
    ensures
        final(h).deep_view() == with_default(old(h).deep_view(), name@, value@),
{
    match header_name(name) {
        None => {},
        Some(n) => {
            if !contains_field(h, name) && header_value_ok(value) {
                add_field(h, n.as_str(), value);
            }
        },
    }
}

/// Header fields with those of a list, unless they are there already.
pub open spec fn with_defaults(
    h: Seq<(Seq<char>, Seq<char>)>,
    p: Seq<(Seq<char>, Seq<char>)>,
) -> Seq<(Seq<char>, Seq<char>)>
    decreases p.len(),
{
    if p.len() == 0 {
        h
    } else {
        with_default(with_defaults(h, p.drop_last()), p.last().0, p.last().1)
    }
}

fn insert_all(h: &mut Vec<(String, String)>, t: &Table<String>)
    ensures
        final(h).deep_view() == with_defaults(old(h).deep_view(), pairs_of(t@)),
{
    let ghost start = h.deep_view();
    let n: usize = t.len();
    let ghost p = t.pairs();
    let mut i: usize = 0;
    assert(p.take(0) =~= Seq::empty());
    while i < n
        invariant
            i <= n,
            n == p.len(),
            p == t.pairs(),
            h.deep_view() == with_defaults(start, p.take(i as int)),
        decreases n - i,
    {
        assert(p.take(i + 1).drop_last() =~= p.take(i as int));
        insert_if_absent(h, t.key_at(i).as_str(), t.value_at(i).as_str());
        i = i + 1;
    }
    assert(p.take(n as int) =~= p);
}

/// The header field in which a browser says which method it wants to use.
pub const REQUEST_METHOD: &'static str = "access-control-request-method";

/// The header field in which a browser says which fields it wants to send.
pub const REQUEST_HEADERS: &'static str = "access-control-request-headers";

/// Header fields with one that repeats a field of the request, if it is there.
pub open spec fn echoing(
    h: Seq<(Seq<char>, Seq<char>)>,
    q: RequestView,
    asked: Seq<char>,
    name: Seq<char>,
) -> Seq<(Seq<char>, Seq<char>)> {
    if q.headers.contains_key(asked) {
        with_default(h, name, q.headers[asked])
    } else {
        h
    }
}

/// The header fields of a response with those that the server adds: what is
/// there already always wins.
pub open spec fn completed(
    h: Seq<(Seq<char>, Seq<char>)>,
    q: RequestView,
    opts: ResolvedView,
) -> Seq<(Seq<char>, Seq<char>)> {
    let s = with_defaults(h, pairs_of(opts.security_headers));
    match opts.cors {
        None => s,
        Some(c) => echoing(
            echoing(
                with_defaults(s, pairs_of(c)),
                q,
                REQUEST_METHOD@,
                "Access-Control-Allow-Methods"@,
            ),
            q,
            REQUEST_HEADERS@,
            "Access-Control-Allow-Headers"@,
        ),
    }
}

/// Adds the header fields that every response gets.
pub fn apply(response: &mut Response, request: &Request, opts: &Resolved)
    ensures
        final(response)@ == (ResponseView {
            headers: completed(old(response)@.headers, request@, opts@),
            ..old(response)@
        }),
{
    let mut headers: Vec<(String, String)> = Vec::new();
    std::mem::swap(&mut headers, &mut response.headers);
    insert_all(&mut headers, &opts.security_headers);
    if let Some(cors) = &opts.cors {
        insert_all(&mut headers, cors);
        if let Some(m) = request.headers.get(REQUEST_METHOD) {
            insert_if_absent(&mut headers, "Access-Control-Allow-Methods", m.as_str());
        }
        if let Some(m) = request.headers.get(REQUEST_HEADERS) {
            insert_if_absent(&mut headers, "Access-Control-Allow-Headers", m.as_str());
        }
    }
    response.headers = headers;
}

/// Whether a request only asks what another may do.
pub open spec fn is_preflight(q: RequestView, opts: ResolvedView) -> bool {
    opts.cors is Some && q.method == "OPTIONS"@ && q.headers.contains_key(REQUEST_METHOD@)
}

/// The response to a request that only asks what another may do; none for any
/// other request, and none where there are no headers for other origins.
pub fn preflight_response(request: &Request, opts: &Resolved) -> (r: Option<Response>)
    ensures
        match r {
            Some(a) => is_preflight(request@, opts@) && a@ == bare_response(
                204,
                "No Content"@,
                Seq::empty(),
            ),
            None => !is_preflight(request@, opts@),
        },
{
    if opts.cors.is_none() || !request.method.as_str().eq("OPTIONS")
        || !request.headers.contains_key(REQUEST_METHOD) {
        return None;
    }
    let none: Vec<(String, String)> = Vec::new();
    assert(none.deep_view() =~= Seq::<(Seq<char>, Seq<char>)>::empty());
    Some(respond_bare(204, "No Content", none))
}

// ---------------------------------------------------------------------------
// Laws
// ---------------------------------------------------------------------------

proof fn lemma_default_keeps(h: Seq<(Seq<char>, Seq<char>)>, name: Seq<char>, value: Seq<char>)
    ensures
        with_default(h, name, value).len() >= h.len(),
        with_default(h, name, value).take(h.len() as int) == h,
        forall|i: int|
            h.len() <= i < with_default(h, name, value).len() ==> !has_field(
                h,
                (#[trigger] with_default(h, name, value)[i]).0,
            ),
{
    let r = with_default(h, name, value);
    assert(r.take(h.len() as int) =~= h);
    assert(lower(lower(name)) =~= lower(name)) by {
        crate::text::lemma_lower_twice(name);
    }
}

proof fn lemma_defaults_keep(h: Seq<(Seq<char>, Seq<char>)>, p: Seq<(Seq<char>, Seq<char>)>)
    ensures
        with_defaults(h, p).len() >= h.len(),
        with_defaults(h, p).take(h.len() as int) == h,
        forall|i: int|
            h.len() <= i < with_defaults(h, p).len() ==> !has_field(
                h,
                (#[trigger] with_defaults(h, p)[i]).0,
            ),
    decreases p.len(),
{
    if p.len() == 0 {
        assert(h.take(h.len() as int) =~= h);
    } else {
        let m = with_defaults(h, p.drop_last());
        lemma_defaults_keep(h, p.drop_last());
        lemma_default_keeps(m, p.last().0, p.last().1);
        let r = with_defaults(h, p);
        lemma_later_fields(h, m, r);
    }
}

/// Fields that are added to fields that were added keep the first ones, too.
proof fn lemma_later_fields(
    h: Seq<(Seq<char>, Seq<char>)>,
    m: Seq<(Seq<char>, Seq<char>)>,
    r: Seq<(Seq<char>, Seq<char>)>,
)
    requires
        m.len() >= h.len(),
        m.take(h.len() as int) == h,
        r.len() >= m.len(),
        r.take(m.len() as int) == m,
        forall|i: int| h.len() <= i < m.len() ==> !has_field(h, (#[trigger] m[i]).0),
        forall|i: int| m.len() <= i < r.len() ==> !has_field(m, (#[trigger] r[i]).0),
    ensures
        r.take(h.len() as int) == h,
        forall|i: int| h.len() <= i < r.len() ==> !has_field(h, (#[trigger] r[i]).0),
{
    assert(r.take(h.len() as int) =~= r.take(m.len() as int).take(h.len() as int));
    assert forall|i: int| h.len() <= i < r.len() implies !has_field(h, (#[trigger] r[i]).0) by {
        if i < m.len() {
            assert(r[i] == r.take(m.len() as int)[i]);
            assert(m[i] == r[i]);
        } else if has_field(h, r[i].0) {
            let j = choose|j: int| 0 <= j < h.len() && same_letters((#[trigger] h[j]).0, r[i].0);
            assert(m.take(h.len() as int)[j] == h[j]);
            assert(m[j] == h[j]);
            assert(has_field(m, r[i].0));
        }
    }
}

/// What a response says already is never changed: its header fields stay as they
/// are, and none of the added ones has the name of one of them.
pub proof fn responses_have_the_last_word(
    h: Seq<(Seq<char>, Seq<char>)>,
    q: RequestView,
    opts: ResolvedView,
)
    ensures
        completed(h, q, opts).len() >= h.len(),
        completed(h, q, opts).take(h.len() as int) == h,
        forall|i: int|
            h.len() <= i < completed(h, q, opts).len() ==> !has_field(
                h,
                (#[trigger] completed(h, q, opts)[i]).0,
            ),
{
    let s = with_defaults(h, pairs_of(opts.security_headers));
    lemma_defaults_keep(h, pairs_of(opts.security_headers));
    if let Some(c) = opts.cors {
        let a = with_defaults(s, pairs_of(c));
        lemma_defaults_keep(s, pairs_of(c));
        lemma_later_fields(h, s, a);
        let b = echoing(a, q, REQUEST_METHOD@, "Access-Control-Allow-Methods"@);
        lemma_default_keeps(a, "Access-Control-Allow-Methods"@, q.headers[REQUEST_METHOD@]);
        assert(a.take(a.len() as int) =~= a);
        lemma_later_fields(h, a, b);
        let r = echoing(b, q, REQUEST_HEADERS@, "Access-Control-Allow-Headers"@);
        lemma_default_keeps(b, "Access-Control-Allow-Headers"@, q.headers[REQUEST_HEADERS@]);
        assert(b.take(b.len() as int) =~= b);
        lemma_later_fields(h, b, r);
    }
}

/// Where there are no headers for other origins, none is added, and what a
/// browser asks for is not repeated.
pub proof fn no_headers_for_other_origins(
    h: Seq<(Seq<char>, Seq<char>)>,
    q: RequestView,
    opts: ResolvedView,
)
    requires
        opts.cors is None,
    ensures
        completed(h, q, opts) == with_defaults(h, pairs_of(opts.security_headers)),
        !is_preflight(q, opts),
{
}

} // verus!
