//! What is compressed, and which fields an answer gets besides its own.

use vstd::prelude::*;

use crate::configs::resolve::ResolvedView;
use crate::digits::decimal;
use crate::laws::directives::comma_list;
use crate::laws::wording::{
    is_word, lemma_around, lemma_lacking, lemma_not_prefixed, lemma_prefixed, lemma_tight,
};
use crate::outside::{is_field_name, is_field_value};
use crate::servers::compress::{
    agreed, attached, digits_end, first_digit, is_text, item_name, verdict_on, wanted_encoding,
    weighs, weighted, Encoding,
};
use crate::servers::fields::{field_text, has_field, is_plain, with_value, without_field};
use crate::servers::headers::{completed, is_preflight, with_default, with_defaults};
use crate::servers::http::{BodyView, RequestView, ResponseView};
use crate::table::pairs_of;
use crate::text::{ends_with, is_space, lemma_split_joined, lower, same_letters, split, starts_with};

verus! {

// ---------------------------------------------------------------------------
// Encodings
// ---------------------------------------------------------------------------

/// Whether a text can be the name of an encoding.
pub open spec fn is_coding(w: Seq<char>) -> bool {
    is_word(w) && !w.contains(',') && !w.contains(';')
}

/// Whether an encoding is named, in letters of any case.
pub open spec fn is_named(list: Seq<Seq<char>>, name: Seq<char>) -> bool {
    exists|i: int| 0 <= i < list.len() && lower(#[trigger] list[i]) == name
}

proof fn lemma_codings(list: Seq<Seq<char>>)
    requires
        list.len() > 0,
        forall|i: int| 0 <= i < list.len() ==> is_coding(#[trigger] list[i]),
    ensures
        split(comma_list(list), ',') == list,
    decreases list.len(),
{
    let w = list[list.len() - 1];
    assert(is_coding(w));
    lemma_lacking(w, ',');
    if list.len() == 1 {
        assert(list =~= seq![w]);
    } else {
        let d = list.drop_last();
        assert forall|i: int| 0 <= i < d.len() implies is_coding(#[trigger] d[i]) by {
            assert(d[i] == list[i]);
        }
        lemma_codings(d);
        lemma_split_joined(comma_list(d), ',', w);
        assert(d + seq![w] =~= list);
    }
}

proof fn lemma_verdict(list: Seq<Seq<char>>, name: Seq<char>, other: Seq<char>)
    requires
        forall|i: int| 0 <= i < list.len() ==> is_coding(#[trigger] list[i]),
    ensures
        verdict_on(list, name, other) == (if is_named(list, name) || is_named(list, other) {
            Some(true)
        } else {
            None
        }),
    decreases list.len(),
{
    if list.len() > 0 {
        let w = list[list.len() - 1];
        assert(is_coding(w));
        lemma_lacking(w, ';');
        assert(!is_space(w[0]) && !is_space(w[w.len() - 1]));
        lemma_tight(w);
        assert(item_name(w) == lower(w));
        let d = list.drop_last();
        assert forall|i: int| 0 <= i < d.len() implies is_coding(#[trigger] d[i]) by {
            assert(d[i] == list[i]);
        }
        lemma_verdict(d, name, other);
        assert forall|n: Seq<char>| is_named(list, n) == (is_named(d, n) || lower(w) == n) by {
            if is_named(list, n) {
                let i = choose|i: int| 0 <= i < list.len() && lower(#[trigger] list[i]) == n;
                if i < d.len() {
                    assert(lower(d[i]) == n);
                }
            }
            if is_named(d, n) {
                let i = choose|i: int| 0 <= i < d.len() && lower(#[trigger] d[i]) == n;
                assert(lower(list[i]) == n);
            }
            if lower(w) == n {
                assert(lower(list[list.len() - 1]) == n);
            }
        }
    }
}

/// Brotli is taken where the client names it, or names everything; otherwise gzip, where
/// the client names that.
pub proof fn clients_choose_the_encoding(list: Seq<Seq<char>>)
    requires
        list.len() > 0,
        forall|i: int| 0 <= i < list.len() ==> is_coding(#[trigger] list[i]),
    ensures
        is_named(list, "br"@) || is_named(list, "*"@) ==> agreed(comma_list(list)) == Some(
            Encoding::Br,
        ),
        !is_named(list, "br"@) && !is_named(list, "*"@) && (is_named(list, "gzip"@) || is_named(
            list,
            "x-gzip"@,
        )) ==> agreed(comma_list(list)) == Some(Encoding::Gzip),
        !is_named(list, "br"@) && !is_named(list, "*"@) && !is_named(list, "gzip"@) && !is_named(
            list,
            "x-gzip"@,
        ) ==> agreed(comma_list(list)) is None,
{
    lemma_codings(list);
    lemma_verdict(list, "br"@, "br"@);
    lemma_verdict(list, "gzip"@, "x-gzip"@);
    lemma_verdict(list, "*"@, "*"@);
}

/// An encoding with a weight.
pub open spec fn with_weight(name: Seq<char>, weight: Seq<char>) -> Seq<char> {
    name + seq![';'] + (seq!['q', '='] + weight)
}

/// An encoding that weighs nothing is refused, also where everything else is taken.
pub proof fn encodings_without_weight_are_refused(weight: Seq<char>)
    requires
        is_coding(weight),
    ensures
        agreed(with_weight("br"@, weight)) == (if weighs(weight) {
            Some(Encoding::Br)
        } else {
            None
        }),
        agreed(with_weight("gzip"@, weight)) == (if weighs(weight) {
            Some(Encoding::Gzip)
        } else {
            None
        }),
        !weighs(weight) ==> agreed(with_weight("br"@, weight) + seq![','] + "gzip"@) == Some(
            Encoding::Gzip,
        ),
        !weighs(weight) ==> agreed(with_weight("br"@, weight) + seq![','] + "*"@) == Some(
            Encoding::Gzip,
        ),
{
    reveal_strlit("br");
    reveal_strlit("gzip");
    reveal_strlit("x-gzip");
    reveal_strlit("*");
    assert(lower("br"@) =~= "br"@);
    assert(lower("gzip"@) =~= "gzip"@);
    assert(lower("*"@) =~= "*"@);
    assert("br"@.len() == 2 && "gzip"@.len() == 4 && "x-gzip"@.len() == 6 && "*"@.len() == 1);
    lemma_weighted("br"@, weight);
    lemma_weighted("gzip"@, weight);
    let b = with_weight("br"@, weight);
    let g = with_weight("gzip"@, weight);
    lemma_lacking(b, ',');
    lemma_lacking(g, ',');
    lemma_alone(b, "br"@, "br"@);
    lemma_alone(b, "gzip"@, "x-gzip"@);
    lemma_alone(b, "*"@, "*"@);
    lemma_alone(g, "br"@, "br"@);
    lemma_alone(g, "gzip"@, "x-gzip"@);
    lemma_alone(g, "*"@, "*"@);
    assert(is_coding("gzip"@));
    assert(is_coding("*"@));
    lemma_lacking("gzip"@, ',');
    lemma_lacking("*"@, ',');
    lemma_split_joined(b, ',', "gzip"@);
    lemma_split_joined(b, ',', "*"@);
    lemma_pair(b, "gzip"@, "br"@, "br"@);
    lemma_pair(b, "gzip"@, "gzip"@, "x-gzip"@);
    lemma_pair(b, "gzip"@, "*"@, "*"@);
    lemma_pair(b, "*"@, "br"@, "br"@);
    lemma_pair(b, "*"@, "gzip"@, "x-gzip"@);
    lemma_pair(b, "*"@, "*"@, "*"@);
    lemma_plain("gzip"@);
    lemma_plain("*"@);
}

proof fn lemma_plain(w: Seq<char>)
    requires
        is_coding(w),
    ensures
        item_name(w) == lower(w),
        weighted(split(w, ';')),
{
    lemma_lacking(w, ';');
    assert(!is_space(w[0]) && !is_space(w[w.len() - 1]));
    lemma_tight(w);
}

proof fn lemma_alone(p: Seq<char>, n: Seq<char>, o: Seq<char>)
    ensures
        verdict_on(seq![p], n, o) == (if item_name(p) == n || item_name(p) == o {
            Some(weighted(split(p, ';')))
        } else {
            None
        }),
{
    reveal_with_fuel(verdict_on, 2);
    assert(seq![p].drop_last() =~= Seq::empty());
}

proof fn lemma_pair(p: Seq<char>, w: Seq<char>, n: Seq<char>, o: Seq<char>)
    ensures
        verdict_on(seq![p] + seq![w], n, o) == (if item_name(w) == n || item_name(w) == o {
            Some(weighted(split(w, ';')))
        } else {
            verdict_on(seq![p], n, o)
        }),
{
    assert((seq![p] + seq![w]).drop_last() =~= seq![p]);
}

proof fn lemma_weighted(name: Seq<char>, weight: Seq<char>)
    requires
        is_coding(name),
        is_coding(weight),
    ensures
        item_name(with_weight(name, weight)) == lower(name),
        weighted(split(with_weight(name, weight), ';')) == weighs(weight),
        !with_weight(name, weight).contains(','),
{
    let v = seq!['q', '='] + weight;
    let s = with_weight(name, weight);
    lemma_split_joined(name, ';', v);
    lemma_lacking(name, ';');
    assert(!v.contains(';')) by {
        if v.contains(';') {
            let i = choose|i: int| 0 <= i < v.len() && v[i] == ';';
            assert(weight[i - 2] == ';');
            assert(weight.contains(';'));
        }
    }
    lemma_lacking(v, ';');
    let f = split(s, ';');
    assert(f =~= seq![name, v]);
    assert(!is_space(name[0]) && !is_space(name[name.len() - 1]));
    lemma_tight(name);
    assert(!is_space(weight[0]) && !is_space(weight[weight.len() - 1]));
    assert(v.last() == weight.last());
    lemma_tight(v);
    lemma_tight(weight);
    reveal_strlit("q=");
    assert("q="@ =~= seq!['q', '=']);
    lemma_prefixed("q="@, weight);
    assert(f.last() == v);
    assert(!s.contains(',')) by {
        if s.contains(',') {
            let i = choose|i: int| 0 <= i < s.len() && s[i] == ',';
            if i < name.len() {
                assert(name[i] == ',');
                assert(name.contains(','));
            } else if i >= name.len() + 3 {
                assert(weight[i - name.len() - 3] == ',');
                assert(weight.contains(','));
            }
        }
    }
}

/// A weight between nothing and one, with up to three digits behind the point, is
/// nothing exactly where all its digits are zero.
pub proof fn weights_are_something_unless_zero(lead: char, digits: Seq<char>)
    requires
        lead == '0' || lead == '1',
        0 < digits.len() <= 3,
        forall|i: int| 0 <= i < digits.len() ==> '0' <= #[trigger] digits[i] <= '9',
    ensures
        weighs(seq![lead, '.'] + digits) <==> lead == '1' || exists|i: int|
            0 <= i < digits.len() && #[trigger] digits[i] != '0',
        weighs(seq![lead]) <==> lead == '1',
{
    reveal_strlit("inf");
    reveal_strlit("infinity");
    let s = seq![lead, '.'] + digits;
    assert(s.skip(0) =~= s);
    assert(lower(s)[0] == lead);
    assert("inf"@[0] == 'i' && "infinity"@[0] == 'i');
    assert(digits_end(s, 0) == 1) by {
        reveal_with_fuel(digits_end, 3);
    }
    assert forall|k: int| 2 <= k <= s.len() implies digits_end(s, k) == s.len() by {
        lemma_digits_to_the_end(s, k);
    }
    assert(digits_end(s, 2) == s.len());
    let d = seq![lead] + digits;
    assert(s.subrange(0, 1) + s.subrange(2, s.len() as int) =~= d);
    lemma_first_digit(d, 0);
    let z = first_digit(d, 0);
    if lead != '1' {
        assert(d[0] == '0');
        if z < d.len() {
            assert(digits[z - 1] == d[z]);
        } else {
            assert forall|i: int| 0 <= i < digits.len() implies #[trigger] digits[i] == '0' by {
                assert(d[i + 1] == '0');
            }
        }
        if exists|i: int| 0 <= i < digits.len() && #[trigger] digits[i] != '0' {
            let i = choose|i: int| 0 <= i < digits.len() && #[trigger] digits[i] != '0';
            assert(d[i + 1] != '0');
        }
    } else {
        assert(d[0] == '1');
    }
    let o = seq![lead];
    assert(o.skip(0) =~= o);
    assert(lower(o)[0] == lead);
    assert(digits_end(o, 0) == 1) by {
        reveal_with_fuel(digits_end, 3);
    }
    assert(o.subrange(0, 1) =~= o);
    lemma_first_digit(o, 0);
}

proof fn lemma_digits_to_the_end(s: Seq<char>, k: int)
    requires
        0 <= k <= s.len(),
        forall|i: int| k <= i < s.len() ==> '0' <= #[trigger] s[i] <= '9',
    ensures
        digits_end(s, k) == s.len(),
    decreases s.len() - k,
{
    if k < s.len() {
        lemma_digits_to_the_end(s, k + 1);
    }
}

proof fn lemma_first_digit(d: Seq<char>, i: int)
    requires
        0 <= i <= d.len(),
    ensures
        i <= first_digit(d, i) <= d.len(),
        forall|j: int| i <= j < first_digit(d, i) ==> #[trigger] d[j] == '0',
        first_digit(d, i) < d.len() ==> d[first_digit(d, i)] != '0',
    decreases d.len() - i,
{
    if i < d.len() && d[i] == '0' {
        lemma_first_digit(d, i + 1);
    }
}

/// Only text is compressed; what stands behind a semicolon does not matter.
pub proof fn text_is_compressed(kind: Seq<char>, parameters: Seq<char>)
    requires
        is_word(kind),
        !kind.contains(';'),
    ensures
        is_text(kind + seq![';'] + parameters) == is_text(kind),
        starts_with(lower(kind), "text/"@) ==> is_text(kind),
        ends_with(lower(kind), "+json"@) ==> is_text(kind),
        ends_with(lower(kind), "+xml"@) ==> is_text(kind),
        same_letters(kind, "application/json"@) ==> is_text(kind),
        same_letters(kind, "application/javascript"@) ==> is_text(kind),
        same_letters(kind, "application/xml"@) ==> is_text(kind),
        starts_with(lower(kind), "image/"@) && !ends_with(lower(kind), "+xml"@) && !ends_with(
            lower(kind),
            "+json"@,
        ) ==> !is_text(kind),
        starts_with(lower(kind), "video/"@) && !ends_with(lower(kind), "+xml"@) && !ends_with(
            lower(kind),
            "+json"@,
        ) ==> !is_text(kind),
{
    lemma_lacking(kind, ';');
    lemma_around(kind, ';', parameters);
    assert(!is_space(kind[0]) && !is_space(kind[kind.len() - 1]));
    lemma_tight(kind);
    reveal_strlit("text/");
    reveal_strlit("image/");
    reveal_strlit("video/");
    reveal_strlit("application/json");
    reveal_strlit("application/javascript");
    reveal_strlit("application/x-javascript");
    reveal_strlit("application/ecmascript");
    reveal_strlit("application/xml");
    assert(lower("application/json"@) =~= "application/json"@);
    assert(lower("application/javascript"@) =~= "application/javascript"@);
    assert(lower("application/xml"@) =~= "application/xml"@);
    let e = lower(kind);
    if starts_with(e, "image/"@) {
        assert(e.subrange(0, 6)[0] == e[0]);
        lemma_not_prefixed("text/"@, e);
    }
    if starts_with(e, "video/"@) {
        assert(e.subrange(0, 6)[0] == e[0]);
        lemma_not_prefixed("text/"@, e);
    }
}

/// A body is compressed where the client takes an encoding and the body is text of some
/// length that is sent whole, and not yet encoded.
pub proof fn whole_bodies_are_compressed(r: ResponseView, accept: Seq<char>, body: Seq<u8>)
    requires
        r.body == BodyView::Bytes(body),
    ensures
        wanted_encoding(r, None) is None,
        r.status == 206 || r.status == 416 || r.status == 304 || r.status == 204
            ==> wanted_encoding(r, Some(accept)) is None,
        r.head_only ==> wanted_encoding(r, Some(accept)) is None,
        body.len() < 256 ==> wanted_encoding(r, Some(accept)) is None,
        has_field(r.headers, "content-encoding"@) ==> wanted_encoding(r, Some(accept)) is None,
        !is_text(field_text(r.headers, 0, "content-type"@)) ==> wanted_encoding(r, Some(accept))
            is None,
        r.status == 200 && !r.head_only && body.len() >= 256 && !has_field(
            r.headers,
            "content-encoding"@,
        ) && is_text(field_text(r.headers, 0, "content-type"@)) ==> wanted_encoding(
            r,
            Some(accept),
        ) == agreed(accept),
        r.status == 404 && !r.head_only && body.len() >= 256 && !has_field(
            r.headers,
            "content-encoding"@,
        ) && is_text(field_text(r.headers, 0, "content-type"@)) ==> wanted_encoding(
            r,
            Some(accept),
        ) == agreed(accept),
{
}

/// A body takes its compressed form only where that is shorter; and then says so, and
/// how long it is, and no more that parts of it can be had.
pub proof fn only_shorter_forms_are_sent(r: ResponseView, e: Encoding, raw: Seq<u8>, d: Seq<u8>)
    requires
        r.body == BodyView::Bytes(raw),
    ensures
        attached(r, e, None) == r,
        d.len() >= raw.len() ==> attached(r, e, Some(d)) == r,
        d.len() < raw.len() ==> ({
            let a = attached(r, e, Some(d));
            &&& a.body == BodyView::Bytes(d)
            &&& a.status == r.status
            &&& a.reason == r.reason
            &&& !has_field(a.headers, "accept-ranges"@)
            &&& field_text(a.headers, 0, "content-length"@) == decimal(d.len() as int)
            &&& e == Encoding::Gzip ==> field_text(a.headers, 0, "content-encoding"@) == "gzip"@
            &&& e == Encoding::Br ==> field_text(a.headers, 0, "content-encoding"@) == "br"@
        }),
{
    if d.len() < raw.len() {
        let token = if e == Encoding::Gzip {
            "gzip"@
        } else {
            "br"@
        };
        reveal_strlit("gzip");
        reveal_strlit("br");
        reveal_strlit("content-encoding");
        reveal_strlit("content-length");
        reveal_strlit("accept-ranges");
        assert(lower("content-encoding"@) =~= "content-encoding"@);
        assert(lower("content-length"@) =~= "content-length"@);
        assert(lower("accept-ranges"@) =~= "accept-ranges"@);
        assert("content-encoding"@.len() == 16 && "content-length"@.len() == 14
            && "accept-ranges"@.len() == 13);
        let n = decimal(d.len() as int);
        crate::laws::wording::lemma_decimal_digits(d.len() as int);
        assert(is_plain(n)) by {
            assert forall|i: int| 0 <= i < n.len() implies (#[trigger] n[i] == '\t' || (n[i] as u32
                >= 32 && (n[i] as u32) < 127)) by {
                assert('0' <= n[i] <= '9');
            }
        }
        assert(is_plain(token));
        let one = with_value(r.headers, "content-encoding"@, token);
        let two = with_value(one, "content-length"@, n);
        lemma_set(r.headers, "content-encoding"@, token);
        lemma_set(one, "content-length"@, n);
        lemma_kept(one, "content-length"@, "content-encoding"@);
        lemma_pushed(without_field(one, "content-length"@), ("content-length"@, n), "content-encoding"@);
        lemma_kept(two, "accept-ranges"@, "content-encoding"@);
        lemma_kept(two, "accept-ranges"@, "content-length"@);
        lemma_gone(two, "accept-ranges"@);
    }
}

proof fn lemma_gone(h: Seq<(Seq<char>, Seq<char>)>, name: Seq<char>)
    ensures
        !has_field(without_field(h, name), name),
    decreases h.len(),
{
    if h.len() > 0 {
        lemma_gone(h.drop_last(), name);
        let w = without_field(h.drop_last(), name);
        if !same_letters(h.last().0, name) {
            let p = w.push(h.last());
            assert(!has_field(p, name)) by {
                if has_field(p, name) {
                    let i = choose|i: int| 0 <= i < p.len() && same_letters((#[trigger] p[i]).0, name);
                    if i < w.len() {
                        assert(same_letters(w[i].0, name));
                    }
                }
            }
        }
    }
}

proof fn lemma_pushed(h: Seq<(Seq<char>, Seq<char>)>, f: (Seq<char>, Seq<char>), name: Seq<char>)
    ensures
        has_field(h, name) || !same_letters(f.0, name) ==> field_text(h.push(f), 0, name)
            == field_text(h, 0, name),
        !has_field(h, name) && same_letters(f.0, name) && is_plain(f.1) ==> field_text(
            h.push(f),
            0,
            name,
        ) == f.1,
{
    lemma_pushed_at(h, f, name, 0);
}

proof fn lemma_pushed_at(
    h: Seq<(Seq<char>, Seq<char>)>,
    f: (Seq<char>, Seq<char>),
    name: Seq<char>,
    i: int,
)
    requires
        0 <= i <= h.len(),
        forall|j: int| 0 <= j < i ==> !same_letters((#[trigger] h[j]).0, name),
    ensures
        has_field(h, name) || !same_letters(f.0, name) ==> field_text(h.push(f), i, name)
            == field_text(h, i, name),
        !has_field(h, name) && same_letters(f.0, name) && is_plain(f.1) ==> field_text(
            h.push(f),
            i,
            name,
        ) == f.1,
    decreases h.len() - i,
{
    let p = h.push(f);
    reveal_with_fuel(field_text, 3);
    if i < h.len() {
        assert(p[i] == h[i]);
        if same_letters(h[i].0, name) {
            assert(has_field(h, name));
        } else {
            lemma_pushed_at(h, f, name, i + 1);
        }
    } else {
        assert(p[i] == f);
        if has_field(h, name) {
            let j = choose|j: int| 0 <= j < h.len() && same_letters((#[trigger] h[j]).0, name);
            assert(same_letters(h[j].0, name));
        }
    }
}

proof fn lemma_kept(h: Seq<(Seq<char>, Seq<char>)>, gone: Seq<char>, name: Seq<char>)
    requires
        !same_letters(gone, name),
    ensures
        field_text(without_field(h, gone), 0, name) == field_text(h, 0, name),
        has_field(without_field(h, gone), name) == has_field(h, name),
    decreases h.len(),
{
    if h.len() > 0 {
        let d = h.drop_last();
        let l = h.last();
        lemma_kept(d, gone, name);
        assert(d.push(l) =~= h);
        lemma_pushed(d, l, name);
        lemma_pushed(without_field(d, gone), l, name);
        lemma_has_pushed(d, l, name);
        lemma_has_pushed(without_field(d, gone), l, name);
        if !is_plain(l.1) && !has_field(d, name) && same_letters(l.0, name) {
            lemma_pushed_odd(d, l, name, 0);
            lemma_pushed_odd(without_field(d, gone), l, name, 0);
        }
    }
}

proof fn lemma_pushed_odd(
    h: Seq<(Seq<char>, Seq<char>)>,
    f: (Seq<char>, Seq<char>),
    name: Seq<char>,
    i: int,
)
    requires
        0 <= i <= h.len(),
        !has_field(h, name),
        same_letters(f.0, name),
        !is_plain(f.1),
    ensures
        field_text(h.push(f), i, name) == Seq::<char>::empty(),
    decreases h.len() - i,
{
    let p = h.push(f);
    if i < h.len() {
        assert(p[i] == h[i]);
        if same_letters(h[i].0, name) {
            assert(has_field(h, name));
        }
        lemma_pushed_odd(h, f, name, i + 1);
    } else {
        assert(p[i] == f);
    }
}

proof fn lemma_has_pushed(h: Seq<(Seq<char>, Seq<char>)>, f: (Seq<char>, Seq<char>), name: Seq<char>)
    ensures
        has_field(h.push(f), name) == (has_field(h, name) || same_letters(f.0, name)),
{
    let p = h.push(f);
    if has_field(p, name) {
        let i = choose|i: int| 0 <= i < p.len() && same_letters((#[trigger] p[i]).0, name);
        if i < h.len() {
            assert(same_letters(h[i].0, name));
        }
    }
    if has_field(h, name) {
        let i = choose|i: int| 0 <= i < h.len() && same_letters((#[trigger] h[i]).0, name);
        assert(same_letters(p[i].0, name));
    }
    if same_letters(f.0, name) {
        assert(same_letters(p[h.len() as int].0, name));
    }
}

proof fn lemma_set(h: Seq<(Seq<char>, Seq<char>)>, name: Seq<char>, value: Seq<char>)
    requires
        is_plain(value),
    ensures
        field_text(with_value(h, name, value), 0, name) == value,
{
    lemma_gone(h, name);
    lemma_pushed(without_field(h, name), (name, value), name);
}

// ---------------------------------------------------------------------------
// Fields besides an answer's own
// ---------------------------------------------------------------------------

/// A field that an answer has already stays as it is; one that it has not is added.
pub proof fn own_fields_come_first(
    h: Seq<(Seq<char>, Seq<char>)>,
    name: Seq<char>,
    value: Seq<char>,
)
    ensures
        has_field(h, name) ==> with_default(h, name, value) == h,
        !has_field(h, name) && is_field_name(name) && is_field_value(value) ==> with_default(
            h,
            name,
            value,
        ) == h.push((lower(name), value)),
        !is_field_name(name) || !is_field_value(value) ==> with_default(h, name, value) == h,
{
}

/// The fields for safety are added to every answer; those for other sites only where
/// these are allowed to ask.
pub proof fn other_sites_may_ask_where_allowed(
    h: Seq<(Seq<char>, Seq<char>)>,
    q: RequestView,
    opts: ResolvedView,
)
    ensures
        opts.cors is None ==> completed(h, q, opts) == with_defaults(
            h,
            pairs_of(opts.security_headers),
        ),
        opts.cors is Some && !q.headers.contains_key("access-control-request-method"@)
            && !q.headers.contains_key("access-control-request-headers"@) ==> completed(h, q, opts)
            == with_defaults(
            with_defaults(h, pairs_of(opts.security_headers)),
            pairs_of(opts.cors->0),
        ),
        opts.cors is None ==> !is_preflight(q, opts),
        q.method == "OPTIONS"@ && opts.cors is Some && q.headers.contains_key(
            "access-control-request-method"@,
        ) ==> is_preflight(q, opts),
        q.method == "GET"@ ==> !is_preflight(q, opts),
        !q.headers.contains_key("access-control-request-method"@) ==> !is_preflight(q, opts),
{
    reveal_strlit("GET");
    reveal_strlit("OPTIONS");
    assert("GET"@.len() == 3 && "OPTIONS"@.len() == 7);
}

/// What another site asks to do is what it may do, in so far as nothing else is said.
pub proof fn other_sites_may_do_what_they_ask(
    h: Seq<(Seq<char>, Seq<char>)>,
    q: RequestView,
    opts: ResolvedView,
)
    requires
        opts.cors is Some,
        q.headers.contains_key("access-control-request-method"@),
        !q.headers.contains_key("access-control-request-headers"@),
        is_field_value(q.headers["access-control-request-method"@]),
        is_field_name("Access-Control-Allow-Methods"@),
        !has_field(
            with_defaults(
                with_defaults(h, pairs_of(opts.security_headers)),
                pairs_of(opts.cors->0),
            ),
            "Access-Control-Allow-Methods"@,
        ),
    ensures
        completed(h, q, opts) == with_defaults(
            with_defaults(h, pairs_of(opts.security_headers)),
            pairs_of(opts.cors->0),
        ).push(
            ("access-control-allow-methods"@, q.headers["access-control-request-method"@]),
        ),
{
    reveal_strlit("Access-Control-Allow-Methods");
    reveal_strlit("access-control-allow-methods");
    assert(lower("Access-Control-Allow-Methods"@) =~= "access-control-allow-methods"@);
}

} // verus!
