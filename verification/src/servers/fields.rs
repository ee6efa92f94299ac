//! Lists of header fields.

use vstd::prelude::*;

use crate::servers::http::add_field;
use crate::text::{chars_of, eq_ignore_case, same_letters};

verus! {

/// Whether header fields hold one with a name, in whatever case.
pub open spec fn has_field(h: Seq<(Seq<char>, Seq<char>)>, name: Seq<char>) -> bool {
    exists|i: int| 0 <= i < h.len() && same_letters((#[trigger] h[i]).0, name)
}

/// Whether header fields hold one with a name, in whatever case.
pub fn contains_field(h: &Vec<(String, String)>, name: &str) -> (r: bool)
    ensures
        r == has_field(h.deep_view(), name@),
{
    let ghost all = h.deep_view();
    let n: usize = h.len();
    let mut i: usize = 0;
    while i < n
        invariant
            i <= n,
            n == h@.len(),
            all == h.deep_view(),
            forall|j: int| 0 <= j < i ==> !same_letters((#[trigger] all[j]).0, name@),
        decreases n - i,
    {
        assert(all[i as int] == (h@[i as int].0@, h@[i as int].1@));
        if eq_ignore_case(h[i].0.as_str(), name) {
            return true;
        }
        i = i + 1;
    }
    false
}

/// Whether text is made of visible ASCII characters, spaces and tabs.
pub open spec fn is_plain(s: Seq<char>) -> bool {
    forall|i: int|
        0 <= i < s.len() ==> (#[trigger] s[i] == '\t' || (s[i] as u32 >= 32 && (s[i] as u32) < 127))
}

fn plain_text(s: &str) -> (r: bool)
    ensures
        r == is_plain(s@),
{
    let v = chars_of(s);
    let n: usize = v.len();
    let mut i: usize = 0;
    while i < n
        invariant
            i <= n,
            n == v@.len(),
            v@ == s@,
            forall|j: int|
                0 <= j < i ==> (#[trigger] s@[j] == '\t' || (s@[j] as u32 >= 32 && (s@[j] as u32)
                    < 127)),
        decreases n - i,
    {
        let c: char = v[i];
        if !(c == '\t' || (c as u32 >= 32 && (c as u32) < 127)) {
            assert(s@[i as int] == c);
            return false;
        }
        i = i + 1;
    }
    true
}

/// The first header field with a name, from a place on, as text; nothing where
/// it is missing or no plain text.
pub open spec fn field_text(h: Seq<(Seq<char>, Seq<char>)>, i: int, name: Seq<char>) -> Seq<char>
    decreases h.len() - i,
{
    if i < 0 || i >= h.len() {
        Seq::empty()
    } else if same_letters(h[i].0, name) {
        if is_plain(h[i].1) {
            h[i].1
        } else {
            Seq::empty()
        }
    } else {
        field_text(h, i + 1, name)
    }
}

/// The first header field with a name as text; nothing where it is missing or no
/// plain text.
pub fn text_of_field(h: &Vec<(String, String)>, name: &str) -> (r: String)
    ensures
        r@ == field_text(h.deep_view(), 0, name@),
{
    let ghost all = h.deep_view();
    let n: usize = h.len();
    let mut i: usize = 0;
    while i < n
        invariant
            i <= n,
            n == h@.len(),
            all == h.deep_view(),
            field_text(all, 0, name@) == field_text(all, i as int, name@),
        decreases n - i,
    {
        assert(all[i as int] == (h@[i as int].0@, h@[i as int].1@));
        if eq_ignore_case(h[i].0.as_str(), name) {
            if plain_text(h[i].1.as_str()) {
                return h[i].1.clone();
            }
            let none = String::new();
            assert(none@ =~= Seq::empty());
            return none;
        }
        i = i + 1;
    }
    let none = String::new();
    assert(none@ =~= Seq::empty());
    none
}

/// Header fields without those of a name.
pub open spec fn without_field(h: Seq<(Seq<char>, Seq<char>)>, name: Seq<char>) -> Seq<
    (Seq<char>, Seq<char>),
>
    decreases h.len(),
{
    if h.len() == 0 {
        Seq::empty()
    } else if same_letters(h.last().0, name) {
        without_field(h.drop_last(), name)
    } else {
        without_field(h.drop_last(), name).push(h.last())
    }
}

/// Header fields with one value for a name.
pub open spec fn with_value(
    h: Seq<(Seq<char>, Seq<char>)>,
    name: Seq<char>,
    value: Seq<char>,
) -> Seq<(Seq<char>, Seq<char>)> {
    without_field(h, name).push((name, value))
}

/// Takes the header fields of a name away.
pub fn remove_field(h: &mut Vec<(String, String)>, name: &str)
    ensures
        final(h).deep_view() == without_field(old(h).deep_view(), name@),
{
    let ghost all = h.deep_view();
    let n: usize = h.len();
    let mut out: Vec<(String, String)> = Vec::new();
    let mut i: usize = 0;
    assert(all.take(0) =~= Seq::empty());
    assert(out.deep_view() =~= Seq::<(Seq<char>, Seq<char>)>::empty());
    while i < n
        invariant
            i <= n,
            n == h@.len(),
            all == h.deep_view(),
            out.deep_view() == without_field(all.take(i as int), name@),
        decreases n - i,
    {
        assert(all.take(i + 1).drop_last() =~= all.take(i as int));
        assert(all.take(i + 1).last() == (h@[i as int].0@, h@[i as int].1@));
        if !eq_ignore_case(h[i].0.as_str(), name) {
            add_field(&mut out, h[i].0.as_str(), h[i].1.as_str());
        }
        i = i + 1;
    }
    assert(all.take(n as int) =~= all);
    *h = out;
}

/// Gives a name one value.
pub fn set_field(h: &mut Vec<(String, String)>, name: &str, value: &str)
    ensures
        final(h).deep_view() == with_value(old(h).deep_view(), name@, value@),
{
    remove_field(h, name);
    add_field(h, name, value);
}

/// The text of a field after one more field.
proof fn lemma_push_field(
    h: Seq<(Seq<char>, Seq<char>)>,
    i: int,
    f: (Seq<char>, Seq<char>),
    name: Seq<char>,
)
    requires
        0 <= i <= h.len(),
    ensures
        (forall|j: int| i <= j < h.len() ==> !same_letters((#[trigger] h[j]).0, name))
            ==> field_text(h.push(f), i, name) == if same_letters(f.0, name) && is_plain(f.1) {
            f.1
        } else {
            Seq::<char>::empty()
        },
        (exists|j: int| i <= j < h.len() && same_letters((#[trigger] h[j]).0, name)) ==> field_text(
            h.push(f),
            i,
            name,
        ) == field_text(h, i, name),
        !same_letters(f.0, name) ==> field_text(h.push(f), i, name) == field_text(h, i, name),
    decreases h.len() - i,
{
    if i < h.len() {
        assert(h.push(f)[i] == h[i]);
        lemma_push_field(h, i + 1, f, name);
        if exists|j: int| i <= j < h.len() && same_letters((#[trigger] h[j]).0, name) {
            let j = choose|j: int| i <= j < h.len() && same_letters((#[trigger] h[j]).0, name);
            assert(j == i || i + 1 <= j);
        }
    } else {
        assert(h.push(f)[i] == f);
        assert(field_text(h.push(f), i + 1, name) == Seq::<char>::empty());
    }
}

/// What taking the fields of a name away leaves.
pub proof fn lemma_without(h: Seq<(Seq<char>, Seq<char>)>, gone: Seq<char>, name: Seq<char>)
    ensures
        !has_field(without_field(h, gone), gone),
        !same_letters(gone, name) ==> field_text(without_field(h, gone), 0, name) == field_text(
            h,
            0,
            name,
        ),
        !same_letters(gone, name) ==> has_field(without_field(h, gone), name) == has_field(h, name),
    decreases h.len(),
{
    if h.len() > 0 {
        let front = h.drop_last();
        lemma_without(front, gone, name);
        assert(front.push(h.last()) =~= h);
        lemma_push_field(front, 0, h.last(), name);
        lemma_push_field(without_field(front, gone), 0, h.last(), name);
        let w = without_field(h, gone);
        let v = without_field(front, gone);
        assert forall|i: int| 0 <= i < w.len() implies !same_letters((#[trigger] w[i]).0, gone) by {
            if i < v.len() {
                assert(w[i] == v[i]);
            }
        }
        if !same_letters(gone, name) {
            if has_field(h, name) {
                let i = choose|i: int| 0 <= i < h.len() && same_letters((#[trigger] h[i]).0, name);
                if i < front.len() {
                    assert(front[i] == h[i]);
                    assert(has_field(front, name));
                    let j = choose|j: int|
                        0 <= j < v.len() && same_letters((#[trigger] v[j]).0, name);
                    assert(w[j] == v[j]);
                } else {
                    assert(w[v.len() as int] == h.last());
                }
            }
            if has_field(w, name) {
                let i = choose|i: int| 0 <= i < w.len() && same_letters((#[trigger] w[i]).0, name);
                if i < v.len() {
                    assert(v[i] == w[i]);
                    assert(has_field(v, name));
                    let j = choose|j: int|
                        0 <= j < front.len() && same_letters((#[trigger] front[j]).0, name);
                    assert(h[j] == front[j]);
                } else {
                    assert(h[h.len() - 1] == h.last());
                }
            }
            assert(has_field(front, name) == has_field(v, name));
            if same_letters(h.last().0, gone) {
                assert(!same_letters(h.last().0, name));
            } else if !has_field(front, name) {
                assert forall|j: int| 0 <= j < front.len() implies !same_letters(
                    (#[trigger] front[j]).0,
                    name,
                ) by {}
                assert forall|j: int| 0 <= j < v.len() implies !same_letters(
                    (#[trigger] v[j]).0,
                    name,
                ) by {}
            }
        }
    }
}

/// What giving a name one value changes.
pub proof fn lemma_with_value(
    h: Seq<(Seq<char>, Seq<char>)>,
    set: Seq<char>,
    value: Seq<char>,
    name: Seq<char>,
)
    ensures
        is_plain(value) ==> field_text(with_value(h, set, value), 0, set) == value,
        !same_letters(set, name) ==> field_text(with_value(h, set, value), 0, name) == field_text(
            h,
            0,
            name,
        ),
        has_field(with_value(h, set, value), set),
        has_field(h, name) ==> has_field(with_value(h, set, value), name),
{
    let w = without_field(h, set);
    let v = with_value(h, set, value);
    lemma_without(h, set, name);
    assert(same_letters(v[w.len() as int].0, set));
    if has_field(h, name) {
        if same_letters(set, name) {
            assert(same_letters(v[w.len() as int].0, name));
        } else {
            let j = choose|j: int| 0 <= j < w.len() && same_letters((#[trigger] w[j]).0, name);
            assert(v[j] == w[j]);
        }
    }
    lemma_push_field(w, 0, (set, value), name);
    assert forall|j: int| 0 <= j < w.len() implies !same_letters((#[trigger] w[j]).0, set) by {}
    lemma_push_field(w, 0, (set, value), set);
}

/// The text of a field is plain.
pub proof fn lemma_plain_field(h: Seq<(Seq<char>, Seq<char>)>, i: int, name: Seq<char>)
    ensures
        is_plain(field_text(h, i, name)),
    decreases h.len() - i,
{
    if 0 <= i < h.len() && !same_letters(h[i].0, name) {
        lemma_plain_field(h, i + 1, name);
    }
}

} // verus!
