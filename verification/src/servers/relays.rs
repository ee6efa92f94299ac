//! What a client gets of the first lines of a response: what the server sent.

use vstd::prelude::*;

use crate::digits::{
    after_plus, decimal, digit_value, number, number16, value, written_reads_back,
};
use crate::servers::http::field_lines;
use crate::servers::upstream::{
    fields_in, head_in, status_lines, status_of, UpstreamHeadView,
};
use crate::text::{
    lemma_parted, lemma_position, lemma_position_is, lemma_trim_start, split_once, trim, trim_end,
    trim_start, Class,
};

verus! {

/// The line of a status.
pub open spec fn status_line(h: UpstreamHeadView) -> Seq<char> {
    "HTTP/1.1 "@ + decimal(h.status as int) + " "@ + h.reason + "\r\n"@
}

/// The line of a header field.
pub open spec fn field_line(f: (Seq<char>, Seq<char>)) -> Seq<char> {
    f.0 + ": "@ + f.1 + "\r\n"@
}

/// The first lines of a response, each with its end.
pub open spec fn head_lines(h: UpstreamHeadView) -> Seq<Seq<char>> {
    seq![status_line(h)] + h.headers.map_values(|f: (Seq<char>, Seq<char>)| field_line(f)) + seq![
        "\r\n"@,
    ]
}

/// Lines in a row.
pub open spec fn flat(lines: Seq<Seq<char>>) -> Seq<char>
    decreases lines.len(),
{
    if lines.len() == 0 {
        Seq::empty()
    } else {
        flat(lines.drop_last()) + lines.last()
    }
}

// ---------------------------------------------------------------------------
// Trimming
// ---------------------------------------------------------------------------

proof fn lemma_end_trimmed(s: Seq<char>, k: Class)
    ensures
        trim_end(s, k).len() <= s.len(),
        trim_end(s, k) == s.take(trim_end(s, k).len() as int),
        trim_end(s, k).len() > 0 ==> !k.holds(trim_end(s, k).last()),
        trim_end(trim_end(s, k), k) == trim_end(s, k),
    decreases s.len(),
{
    if s.len() > 0 && k.holds(s.last()) {
        lemma_end_trimmed(s.drop_last(), k);
        let n = trim_end(s, k).len() as int;
        assert(s.drop_last().take(n) =~= s.take(n));
    } else {
        assert(s.take(s.len() as int) =~= s);
    }
}

proof fn lemma_trailing(a: Seq<char>, w: Seq<char>, k: Class)
    requires
        forall|i: int| 0 <= i < w.len() ==> k.holds(#[trigger] w[i]),
    ensures
        trim_end(a + w, k) == trim_end(a, k),
    decreases w.len(),
{
    if w.len() == 0 {
        assert(a + w =~= a);
    } else {
        assert(k.holds(w[w.len() - 1]));
        assert((a + w).last() == w.last());
        assert((a + w).drop_last() =~= a + w.drop_last());
        lemma_trailing(a, w.drop_last(), k);
    }
}

proof fn lemma_leading_space(s: Seq<char>)
    ensures
        trim(seq![' '] + s) == trim(s),
{
    let t = seq![' '] + s;
    assert(t.skip(1) =~= s);
    assert(trim_start(t, Class::Space) == trim_start(s, Class::Space));
}

/// Whether text has no white space at its ends.
pub open spec fn is_bare(s: Seq<char>) -> bool {
    s.len() > 0 ==> !Class::Space.holds(s[0]) && !Class::Space.holds(s.last())
}

proof fn lemma_trim(s: Seq<char>)
    ensures
        is_bare(trim(s)),
        forall|c: char| trim(s).contains(c) ==> s.contains(c),
        is_bare(s) ==> trim(s) == s,
{
    let a = trim_start(s, Class::Space);
    lemma_trim_start(s, Class::Space);
    lemma_start_part(s);
    lemma_end_trimmed(a, Class::Space);
    let t = trim(s);
    if t.len() > 0 {
        assert(t[0] == a[0]);
    }
    assert forall|c: char| t.contains(c) implies s.contains(c) by {
        let i = choose|i: int| 0 <= i < t.len() && t[i] == c;
        assert(a[i] == c);
        assert(s[s.len() - a.len() + i] == c);
    }
}

proof fn lemma_start_part(s: Seq<char>)
    ensures
        trim_start(s, Class::Space).len() <= s.len(),
        trim_start(s, Class::Space) == s.skip(s.len() - trim_start(s, Class::Space).len()),
    decreases s.len(),
{
    if s.len() > 0 && Class::Space.holds(s[0]) {
        lemma_start_part(s.skip(1));
        let n = trim_start(s, Class::Space).len();
        assert(s.skip(1).skip(s.len() - 1 - n) =~= s.skip(s.len() - n));
    } else {
        assert(s.skip(0) =~= s);
    }
}

// ---------------------------------------------------------------------------
// The status
// ---------------------------------------------------------------------------

spec fn is_digit(c: char) -> bool {
    48 <= c as u32 <= 57
}

proof fn lemma_digits(s: Seq<char>)
    requires
        value(s, 10) is Some,
    ensures
        forall|i: int| 0 <= i < s.len() ==> is_digit(#[trigger] s[i]),
    decreases s.len(),
{
    if s.len() > 0 {
        lemma_digits(s.drop_last());
        let c = s.last();
        assert(digit_value(c, 10) is Some);
        assert(is_digit(c));
        assert forall|i: int| 0 <= i < s.len() implies is_digit(#[trigger] s[i]) by {
            if i < s.len() - 1 {
                assert(s[i] == s.drop_last()[i]);
            } else {
                assert(s[i] == c);
            }
        }
    }
}

proof fn lemma_status(h: UpstreamHeadView)
    requires
        trim_end(h.reason, Class::Space) == h.reason,
    ensures
        status_of(status_line(h)) == Some((h.status, h.reason)),
{
    reveal_strlit("HTTP/1.1 ");
    reveal_strlit("HTTP/1.1");
    reveal_strlit(" ");
    reveal_strlit("\r\n");
    reveal_strlit("");
    let d = decimal(h.status as int);
    let r = h.reason;
    written_reads_back(h.status as int, 10);
    lemma_digits(d);
    assert(number16(d) == Some(h.status)) by {
        assert(after_plus(d) == d);
        assert(number(d, 10, 0xffff) == Some(h.status as int));
    }
    assert(!d.contains(' ')) by {
        if d.contains(' ') {
            let i = choose|i: int| 0 <= i < d.len() && d[i] == ' ';
            assert(is_digit(d[i]));
        }
    }
    let whole = status_line(h);
    let x = if r.len() > 0 {
        d + seq![' '] + r
    } else {
        d
    };
    let front = "HTTP/1.1"@ + seq![' '] + x;
    assert(trim_end(whole, Class::Space) == front) by {
        lemma_end_trimmed(r, Class::Space);
        if r.len() > 0 {
            assert(whole =~= front + "\r\n"@);
            lemma_trailing(front, "\r\n"@, Class::Space);
            assert(front.last() == r.last());
        } else {
            assert(whole =~= front + " \r\n"@) by {
                reveal_strlit(" \r\n");
            }
            reveal_strlit(" \r\n");
            lemma_trailing(front, " \r\n"@, Class::Space);
            assert(front.last() == d.last());
            assert(is_digit(d[d.len() - 1]));
        }
    }
    assert(!"HTTP/1.1"@.contains(' '));
    lemma_parted("HTTP/1.1"@, ' ', x);
    if r.len() > 0 {
        lemma_parted(d, ' ', r);
    } else {
        assert forall|j: int| 0 <= j < d.len() implies d[j] != ' ' by {
            assert(d.contains(d[j]));
        }
        lemma_position_is(d, ' ', d.len() as int);
        assert(split_once(d, ' ') is None);
        assert(r =~= ""@);
    }
}

// ---------------------------------------------------------------------------
// The header fields
// ---------------------------------------------------------------------------

/// Whether a header field is one that can be read: its name has no colon, and
/// neither part has white space at its ends.
pub open spec fn is_clean(f: (Seq<char>, Seq<char>)) -> bool {
    is_bare(f.0) && is_bare(f.1) && !f.0.contains(':')
}

proof fn lemma_fields_are_clean(lines: Seq<Seq<char>>, i: int)
    ensures
        forall|j: int| 0 <= j < fields_in(lines, i).len() ==> is_clean(#[trigger] fields_in(lines, i)[j]),
    decreases lines.len() - i,
{
    if 0 <= i < lines.len() {
        let line = trim_end(lines[i], Class::LineEnd);
        if line.len() > 0 {
            lemma_fields_are_clean(lines, i + 1);
            if let Some(p) = split_once(line, ':') {
                lemma_position(line, ':');
                lemma_trim(p.0);
                lemma_trim(p.1);
                assert(!p.0.contains(':'));
                let rest = fields_in(lines, i + 1);
                let all = fields_in(lines, i);
                assert forall|j: int| 0 <= j < all.len() implies is_clean(#[trigger] all[j]) by {
                    if j > 0 {
                        assert(all[j] == rest[j - 1]);
                    }
                }
            } else {
                assert(fields_in(lines, i) == fields_in(lines, i + 1));
            }
        }
    }
}

proof fn lemma_field_line(f: (Seq<char>, Seq<char>))
    requires
        is_clean(f),
    ensures
        ({
            let line = trim_end(field_line(f), Class::LineEnd);
            line.len() > 0 && split_once(line, ':') == Some((f.0, seq![' '] + f.1))
        }),
        trim(f.0) == f.0,
        trim(seq![' '] + f.1) == f.1,
{
    reveal_strlit(": ");
    reveal_strlit("\r\n");
    lemma_trim(f.0);
    lemma_trim(f.1);
    lemma_leading_space(f.1);
    let front = f.0 + seq![':'] + (seq![' '] + f.1);
    assert(field_line(f) =~= front + "\r\n"@);
    lemma_trailing(front, "\r\n"@, Class::LineEnd);
    if f.1.len() > 0 {
        assert(front.last() == f.1.last());
    } else {
        assert(front.last() == ' ');
    }
    lemma_parted(f.0, ':', seq![' '] + f.1);
}

proof fn lemma_fields_again(h: UpstreamHeadView, i: int)
    requires
        forall|j: int| 0 <= j < h.headers.len() ==> is_clean(#[trigger] h.headers[j]),
        0 <= i <= h.headers.len(),
    ensures
        fields_in(head_lines(h), i + 1) == h.headers.skip(i),
    decreases h.headers.len() - i,
{
    let lines = head_lines(h);
    if i == h.headers.len() {
        reveal_strlit("\r\n");
        assert(lines[i + 1] == "\r\n"@);
        assert("\r\n"@ =~= Seq::<char>::empty() + "\r\n"@);
        lemma_trailing(Seq::empty(), "\r\n"@, Class::LineEnd);
        assert(h.headers.skip(i) =~= Seq::<(Seq<char>, Seq<char>)>::empty());
    } else {
        let f = h.headers[i];
        assert(lines[i + 1] == field_line(f));
        lemma_field_line(f);
        lemma_fields_again(h, i + 1);
        assert(seq![f] + h.headers.skip(i + 1) =~= h.headers.skip(i));
    }
}

proof fn lemma_flat_fields(first: Seq<char>, h: Seq<(Seq<char>, Seq<char>)>)
    ensures
        flat(seq![first] + h.map_values(|f: (Seq<char>, Seq<char>)| field_line(f))) == first
            + field_lines(h),
    decreases h.len(),
{
    let lines = seq![first] + h.map_values(|f: (Seq<char>, Seq<char>)| field_line(f));
    if h.len() == 0 {
        assert(lines =~= seq![first]);
        assert(lines.drop_last() =~= Seq::<Seq<char>>::empty());
        reveal_with_fuel(flat, 2);
        assert(flat(lines) =~= first + field_lines(h));
    } else {
        lemma_flat_fields(first, h.drop_last());
        assert(lines.drop_last() =~= seq![first] + h.drop_last().map_values(
            |f: (Seq<char>, Seq<char>)| field_line(f),
        ));
        assert(lines.last() == field_line(h.last()));
        assert(flat(lines) =~= first + field_lines(h));
    }
}

// ---------------------------------------------------------------------------
// Laws
// ---------------------------------------------------------------------------

/// A client that reads what it is sent of the first lines of a response finds
/// there the status, the words after it and the header fields that the server
/// sent.
pub proof fn answers_are_handed_on_unchanged(lines: Seq<Seq<char>>, h: UpstreamHeadView)
    requires
        head_in(lines) == Ok::<UpstreamHeadView, crate::servers::upstream::HeadFault>(h),
    ensures
        flat(head_lines(h)) == status_lines(h),
        head_in(head_lines(h)) == Ok::<UpstreamHeadView, crate::servers::upstream::HeadFault>(h),
{
    lemma_fields_are_clean(lines, 1);
    lemma_fields_again(h, 0);
    assert(h.headers.skip(0) =~= h.headers);
    lemma_reason(lines[0]);
    lemma_status(h);
    assert(head_lines(h)[0] == status_line(h));
    lemma_flat_fields(status_line(h), h.headers);
    let front = seq![status_line(h)] + h.headers.map_values(
        |f: (Seq<char>, Seq<char>)| field_line(f),
    );
    assert(head_lines(h).drop_last() =~= front);
    assert(flat(head_lines(h)) =~= status_lines(h));
}

proof fn lemma_reason(line: Seq<char>)
    ensures
        status_of(line) matches Some(s) ==> trim_end(s.1, Class::Space) == s.1,
{
    let t = trim_end(line, Class::Space);
    lemma_end_trimmed(line, Class::Space);
    lemma_position(t, ' ');
    if let Some(p) = split_once(t, ' ') {
        lemma_position(p.1, ' ');
        reveal_strlit("");
        if let Some(w) = split_once(p.1, ' ') {
            if w.1.len() > 0 {
                assert(w.1.last() == t.last());
            }
        }
    }
}

} // verus!
