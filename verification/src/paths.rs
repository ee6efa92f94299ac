//! File paths as text, with `/` between their components.

use vstd::prelude::*;

use crate::text::{
    after_last, chars_of, join, joined, last_position, lemma_position, lemma_position_is,
    lemma_split_joined, position, split, split_at_char, string_of,
};

verus! {

/// Whether a path starts at the root.
pub open spec fn is_absolute(p: Seq<char>) -> bool {
    p.len() > 0 && p[0] == '/'
}

/// Whether a path starts at the root.
pub fn absolute(p: &str) -> (r: bool)
    ensures
        r == is_absolute(p@),
{
    let v = chars_of(p);
    v.len() > 0 && v[0] == '/'
}

/// `b` seen from the directory `a`: an absolute `b` stands for itself.
pub open spec fn under_dir(a: Seq<char>, b: Seq<char>) -> Seq<char> {
    if is_absolute(b) {
        b
    } else if a.len() == 0 || a.last() == '/' {
        a + b
    } else {
        a + "/"@ + b
    }
}

/// `b` seen from the directory `a`.
pub fn join_path(a: &str, b: &str) -> (r: String)
    ensures
        r@ == under_dir(a@, b@),
{
    if absolute(b) {
        return b.to_owned();
    }
    let v = chars_of(a);
    let mut out = a.to_owned();
    if !(v.len() == 0 || v[v.len() - 1] == '/') {
        out.append("/");
    }
    out.append(b);
    out
}

/// The pieces between slashes that name something: neither empty nor `.`.
pub open spec fn named(pieces: Seq<Seq<char>>) -> Seq<Seq<char>>
    decreases pieces.len(),
{
    if pieces.len() == 0 {
        Seq::empty()
    } else {
        let rest = named(pieces.drop_last());
        if pieces.last().len() == 0 || pieces.last() == "."@ {
            rest
        } else {
            rest.push(pieces.last())
        }
    }
}

/// What a path starts with: the root, the current directory, or neither.
pub open spec fn lead(p: Seq<char>) -> Seq<Seq<char>> {
    if is_absolute(p) {
        seq!["/"@]
    } else if split(p, '/')[0] == "."@ {
        seq!["."@]
    } else {
        Seq::empty()
    }
}

/// The components of a path. Two paths with the same components are the same
/// path.
pub open spec fn components(p: Seq<char>) -> Seq<Seq<char>> {
    lead(p) + named(split(p, '/'))
}

/// The components of a path.
pub fn components_of(p: &str) -> (r: Vec<String>)
    ensures
        r.deep_view() == components(p@),
{
    let pieces = split_at_char(p, '/');
    let ghost all = pieces.deep_view();
    assert(all.len() > 0);
    let mut out: Vec<String> = Vec::new();
    if absolute(p) {
        out.push("/".to_owned());
        assert(out.deep_view() =~= seq!["/"@]);
    } else if pieces[0].as_str().eq(".") {
        assert(all[0] == pieces@[0]@);
        out.push(".".to_owned());
        assert(out.deep_view() =~= seq!["."@]);
    } else {
        assert(all[0] == pieces@[0]@);
        assert(out.deep_view() =~= Seq::<Seq<char>>::empty());
    }
    let mut i: usize = 0;
    let ghost start = out.deep_view();
    assert(all.take(0) =~= Seq::<Seq<char>>::empty());
    assert(start + Seq::<Seq<char>>::empty() =~= start);
    while i < pieces.len()
        invariant
            i <= pieces.len(),
            all == pieces.deep_view(),
            start == lead(p@),
            out.deep_view() == start + named(all.take(i as int)),
        decreases pieces.len() - i,
    {
        assert(all.take(i + 1).drop_last() =~= all.take(i as int));
        assert(all.take(i + 1).last() == pieces@[i as int]@);
        if !(pieces[i].as_str().is_empty() || pieces[i].as_str().eq(".")) {
            let ghost before = out.deep_view();
            out.push(pieces[i].clone());
            assert(out.deep_view() =~= before.push(pieces@[i as int]@));
            assert(before.push(pieces@[i as int]@) =~= start + named(all.take(i as int)).push(
                pieces@[i as int]@,
            ));
        }
        i = i + 1;
    }
    assert(all.take(all.len() as int) =~= all);
    out
}

/// Whether the list `a` starts the list `b`.
pub open spec fn starts(a: Seq<Seq<char>>, b: Seq<Seq<char>>) -> bool {
    a.len() <= b.len() && b.take(a.len() as int) == a
}

/// Whether `p` is `base` or lies somewhere below it.
pub open spec fn within(base: Seq<char>, p: Seq<char>) -> bool {
    starts(components(base), components(p))
}

/// Whether two paths are the same.
pub open spec fn same_path(p: Seq<char>, q: Seq<char>) -> bool {
    components(p) == components(q)
}

fn starts_list(a: &Vec<String>, b: &Vec<String>) -> (r: bool)
    ensures
        r == starts(a.deep_view(), b.deep_view()),
{
    if a.len() > b.len() {
        return false;
    }
    let mut i: usize = 0;
    while i < a.len()
        invariant
            i <= a.len() <= b.len(),
            forall|j: int| 0 <= j < i ==> a.deep_view()[j] == b.deep_view()[j],
        decreases a.len() - i,
    {
        if !a[i].as_str().eq(b[i].as_str()) {
            assert(a.deep_view()[i as int] != b.deep_view()[i as int]);
            assert(b.deep_view().take(a.deep_view().len() as int)[i as int]
                == b.deep_view()[i as int]);
            return false;
        }
        i = i + 1;
    }
    assert(b.deep_view().take(a.deep_view().len() as int) =~= a.deep_view());
    true
}

/// Whether `p` is `base` or lies somewhere below it.
pub fn is_within(base: &str, p: &str) -> (r: bool)
    ensures
        r == within(base@, p@),
{
    let a = components_of(base);
    let b = components_of(p);
    starts_list(&a, &b)
}

/// Whether two paths are the same.
pub fn is_same_path(p: &str, q: &str) -> (r: bool)
    ensures
        r == same_path(p@, q@),
{
    let a = components_of(p);
    let b = components_of(q);
    if a.len() != b.len() {
        assert(a.deep_view().len() != b.deep_view().len());
        return false;
    }
    let r = starts_list(&a, &b);
    assert(b.deep_view().take(a.deep_view().len() as int) =~= b.deep_view());
    r
}

/// The components of `p` below `base`, for a `p` within it.
pub open spec fn below(base: Seq<char>, p: Seq<char>) -> Seq<Seq<char>> {
    components(p).skip(components(base).len() as int)
}

/// Whether a piece between slashes is a component of its path: one that names
/// something, or a `.` at the beginning.
pub open spec fn counts(pieces: Seq<Seq<char>>, i: int) -> bool {
    &&& 0 <= i < pieces.len()
    &&& (pieces[i].len() > 0 && pieces[i] != "."@) || (i == 0 && pieces[0] == "."@)
}

fn piece_counts(pieces: &Vec<String>, i: usize) -> (r: bool)
    requires
        i < pieces@.len(),
    ensures
        r == counts(pieces.deep_view(), i as int),
{
    assert(pieces.deep_view()[i as int] == pieces@[i as int]@);
    let dot = pieces[i].as_str().eq(".");
    (!pieces[i].as_str().is_empty() && !dot) || (i == 0 && dot)
}

/// How many of the first `n` pieces there are up to the last one that is a
/// component.
pub open spec fn last_count(pieces: Seq<Seq<char>>, n: int) -> int
    decreases n,
{
    if n <= 0 {
        0
    } else if counts(pieces, n - 1) {
        n
    } else {
        last_count(pieces, n - 1)
    }
}

fn last_counting(pieces: &Vec<String>, n: usize) -> (r: usize)
    requires
        n <= pieces@.len(),
    ensures
        r == last_count(pieces.deep_view(), n as int),
        r <= n,
        r > 0 ==> counts(pieces.deep_view(), r - 1),
{
    let mut k: usize = n;
    while k > 0 && !piece_counts(pieces, k - 1)
        invariant
            k <= n <= pieces@.len(),
            last_count(pieces.deep_view(), n as int) == last_count(pieces.deep_view(), k as int),
        decreases k,
    {
        k = k - 1;
    }
    k
}

/// Where the component stands that `n` others come before, from a place on.
pub open spec fn component_at(pieces: Seq<Seq<char>>, i: int, n: int) -> int
    decreases pieces.len() - i,
{
    if i < 0 || i >= pieces.len() {
        i
    } else if !counts(pieces, i) {
        component_at(pieces, i + 1, n)
    } else if n <= 0 {
        i
    } else {
        component_at(pieces, i + 1, n - 1)
    }
}

/// `p` without its first `n` components and without slashes at the end.
pub open spec fn without_first(p: Seq<char>, n: int) -> Seq<char> {
    let pieces = split(p, '/');
    let from = if n <= 0 {
        0
    } else if is_absolute(p) {
        component_at(pieces, 0, n - 1)
    } else {
        component_at(pieces, 0, n)
    };
    let to = last_count(pieces, pieces.len() as int);
    if from < to {
        join(pieces.subrange(from, to), "/"@)
    } else if n <= 0 && is_absolute(p) {
        "/"@
    } else {
        Seq::empty()
    }
}

/// `p` as seen from `base`, or `p` itself where it lies outside.
pub open spec fn relative(base: Seq<char>, p: Seq<char>) -> Seq<char> {
    if within(base, p) {
        without_first(p, components(base).len() as int)
    } else {
        p
    }
}

/// `p` as seen from `base`, or `p` itself where it lies outside.
pub fn relative_to(base: &str, p: &str) -> (r: String)
    ensures
        r@ == relative(base@, p@),
{
    let a = components_of(base);
    let b = components_of(p);
    if !starts_list(&a, &b) {
        return p.to_owned();
    }
    let pieces = split_at_char(p, '/');
    let ghost all = pieces.deep_view();
    let n: usize = a.len();
    let rooted = absolute(p);
    let m: usize = pieces.len();
    let mut left: usize = if rooted && n > 0 {
        n - 1
    } else {
        n
    };
    let ghost skipped = left as int;
    let mut from: usize = 0;
    if n > 0 {
        while from < m && !(left == 0 && piece_counts(&pieces, from))
            invariant
                from <= m,
                m == pieces@.len(),
                all == pieces.deep_view(),
                component_at(all, 0, skipped) == component_at(all, from as int, left as int),
            decreases m - from,
        {
            if piece_counts(&pieces, from) {
                left = left - 1;
            }
            from = from + 1;
        }
    }
    let to = last_counting(&pieces, m);
    if from < to {
        joined(&pieces, from, to, "/")
    } else if n == 0 && rooted {
        "/".to_owned()
    } else {
        String::new()
    }
}

/// Whether `p` lies below the directory `name` of `base`, or is it.
pub open spec fn in_top_dir(base: Seq<char>, p: Seq<char>, name: Seq<char>) -> bool {
    within(base, p) && below(base, p).len() > 0 && below(base, p)[0] == name
}

/// Whether `p` lies below the directory `name` of `base`, or is it.
pub fn is_in_top_dir(base: &str, p: &str, name: &str) -> (r: bool)
    ensures
        r == in_top_dir(base@, p@, name@),
{
    let a = components_of(base);
    let b = components_of(p);
    if !starts_list(&a, &b) {
        return false;
    }
    if b.len() > a.len() {
        assert(below(base@, p@)[0] == b@[a.len() as int]@);
        b[a.len()].as_str().eq(name)
    } else {
        false
    }
}

/// The directory that holds `p`, if any does: `p` up to the component before its
/// last one.
pub open spec fn parent(p: Seq<char>) -> Option<Seq<char>> {
    let pieces = split(p, '/');
    let k = last_count(pieces, pieces.len() as int);
    if k <= 0 {
        None
    } else {
        let j = last_count(pieces, k - 1);
        Some(
            if j > 0 {
                join(pieces.take(j), "/"@)
            } else if is_absolute(p) {
                "/"@
            } else {
                Seq::empty()
            },
        )
    }
}

/// The directory that holds `p`, if any does.
pub fn parent_of(p: &str) -> (r: Option<String>)
    ensures
        r.deep_view() == parent(p@),
{
    let pieces = split_at_char(p, '/');
    let ghost all = pieces.deep_view();
    let k = last_counting(&pieces, pieces.len());
    if k == 0 {
        return None;
    }
    let j = last_counting(&pieces, k - 1);
    assert(all.subrange(0, j as int) =~= all.take(j as int));
    if j > 0 {
        Some(joined(&pieces, 0, j, "/"))
    } else if absolute(p) {
        Some("/".to_owned())
    } else {
        Some(String::new())
    }
}

/// The last component of `p`, where it names an entry of a directory.
pub open spec fn file_name(p: Seq<char>) -> Option<Seq<char>> {
    let c = components(p);
    if c.len() == 0 || c.last() == "/"@ || c.last() == "."@ || c.last() == ".."@ {
        None
    } else {
        Some(c.last())
    }
}

/// The last component of `p`, where it names an entry of a directory.
pub fn file_name_of(p: &str) -> (r: Option<String>)
    ensures
        r.deep_view() == file_name(p@),
{
    let c = components_of(p);
    let n: usize = c.len();
    if n == 0 {
        return None;
    }
    assert(c.deep_view().last() == c@[n - 1]@);
    let last = c[n - 1].as_str();
    if last.eq("/") || last.eq(".") || last.eq("..") {
        None
    } else {
        Some(last.to_owned())
    }
}

/// What follows the last dot of a file's name; a dot in front does not count.
pub open spec fn extension(p: Seq<char>) -> Option<Seq<char>> {
    match file_name(p) {
        Some(f) => {
            let i = last_position(f, '.');
            if i > 0 {
                Some(f.skip(i + 1))
            } else {
                None
            }
        },
        None => None,
    }
}

/// What follows the last dot of a file's name; a dot in front does not count.
pub fn extension_of(p: &str) -> (r: Option<String>)
    ensures
        r.deep_view() == extension(p@),
{
    match file_name_of(p) {
        Some(f) => {
            let v = chars_of(f.as_str());
            let j: usize = after_last(v.as_slice(), '.');
            if j > 1 {
                let e = string_of(v.as_slice(), j, v.len());
                assert(e@ =~= f@.skip(j as int));
                Some(e)
            } else {
                None
            }
        },
        None => None,
    }
}

// ---------------------------------------------------------------------------
// Laws
// ---------------------------------------------------------------------------

/// What lies within a directory within `base` lies within `base`.
pub proof fn within_is_transitive(base: Seq<char>, p: Seq<char>, q: Seq<char>)
    requires
        within(base, p),
        within(p, q),
    ensures
        within(base, q),
{
    let a = components(base);
    let b = components(p);
    let c = components(q);
    assert(c.take(a.len() as int) =~= c.take(b.len() as int).take(a.len() as int));
}

/// Every path lies within itself.
pub proof fn within_is_reflexive(p: Seq<char>)
    ensures
        within(p, p),
{
    assert(components(p).take(components(p).len() as int) =~= components(p));
}

proof fn lemma_named(a: Seq<Seq<char>>, b: Seq<Seq<char>>)
    ensures
        named(a + b) == named(a) + named(b),
    decreases b.len(),
{
    if b.len() == 0 {
        assert(a + b =~= a);
        assert(named(a) + named(b) =~= named(a));
    } else {
        lemma_named(a, b.drop_last());
        assert((a + b).drop_last() =~= a + b.drop_last());
        assert((a + b).last() == b.last());
        if b.last().len() == 0 || b.last() == "."@ {
        } else {
            assert(named(a) + named(b.drop_last()).push(b.last()) =~= (named(a) + named(
                b.drop_last(),
            )).push(b.last()));
        }
    }
}

/// A path that does not start at the root, seen from a directory, lies within
/// it.
pub proof fn under_dir_stays_within(dir: Seq<char>, name: Seq<char>)
    requires
        !is_absolute(name),
    ensures
        within(dir, under_dir(dir, name)),
{
    let whole = under_dir(dir, name);
    let a = components(dir);
    if dir.len() == 0 {
        lemma_position(dir, '/');
        assert(split(dir, '/') =~= seq![dir]);
        reveal_strlit(".");
        assert(named(seq![dir]) =~= Seq::<Seq<char>>::empty()) by {
            reveal_with_fuel(named, 2);
            assert(seq![dir].drop_last() =~= Seq::<Seq<char>>::empty());
        }
        assert(a =~= Seq::<Seq<char>>::empty());
        assert(components(whole).take(0) =~= a);
    } else {
        reveal_strlit("/");
        let head = if dir.last() == '/' {
            dir.drop_last()
        } else {
            dir
        };
        assert(whole =~= head + seq!['/'] + name);
        lemma_split_joined(head, '/', name);
        lemma_named(split(head, '/'), split(name, '/'));
        lemma_position(head, '/');
        assert(split(head, '/').len() > 0);
        assert(split(whole, '/')[0] == split(head, '/')[0]);
        if dir.last() == '/' {
            assert(dir =~= head + seq!['/'] + Seq::<char>::empty());
            lemma_split_joined(head, '/', Seq::empty());
            lemma_position(Seq::<char>::empty(), '/');
            assert(split(Seq::<char>::empty(), '/') =~= seq![Seq::<char>::empty()]);
            lemma_named(split(head, '/'), seq![Seq::<char>::empty()]);
            assert(named(seq![Seq::<char>::empty()]) =~= Seq::<Seq<char>>::empty()) by {
                reveal_with_fuel(named, 2);
                assert(seq![Seq::<char>::empty()].drop_last() =~= Seq::<Seq<char>>::empty());
            }
            assert(split(dir, '/')[0] == split(head, '/')[0]);
        }
        assert(named(split(dir, '/')) =~= named(split(head, '/')));
        assert(whole[0] == dir[0]);
        assert(lead(whole) == lead(dir));
        assert(components(whole) =~= a + named(split(name, '/')));
        assert(components(whole).take(a.len() as int) =~= a);
    }
}

proof fn lemma_pieces(s: Seq<char>)
    ensures
        split(s, '/').len() > 0,
        forall|i: int| 0 <= i < split(s, '/').len() ==> !(#[trigger] split(s, '/')[i]).contains('/'),
        is_absolute(s) == (split(s, '/').len() > 1 && split(s, '/')[0].len() == 0),
    decreases s.len(),
{
    lemma_position(s, '/');
    let k = position(s, '/');
    assert(!s.take(k).contains('/'));
    if k < s.len() {
        lemma_pieces(s.skip(k + 1));
        let rest = split(s.skip(k + 1), '/');
        assert forall|i: int| 0 <= i < split(s, '/').len() implies !(#[trigger] split(
            s,
            '/',
        )[i]).contains('/') by {
            if i > 0 {
                assert(split(s, '/')[i] == rest[i - 1]);
            }
        }
    } else {
        assert(s.take(k) =~= s);
    }
}

proof fn lemma_joined_splits(c: Seq<Seq<char>>)
    requires
        forall|i: int| 0 <= i < c.len() ==> !(#[trigger] c[i]).contains('/'),
        c.len() > 0,
    ensures
        split(join(c, "/"@), '/') == c,
    decreases c.len(),
{
    reveal_strlit("/");
    let last = c.last();
    assert(last == c[c.len() - 1]);
    assert forall|j: int| 0 <= j < last.len() implies last[j] != '/' by {
        assert(last.contains(last[j]));
    }
    lemma_position_is(last, '/', last.len() as int);
    assert(split(last, '/') =~= seq![last]);
    if c.len() == 1 {
        assert(join(c, "/"@) == c[0]);
        assert(c =~= seq![last]);
    } else {
        let front = c.drop_last();
        assert forall|i: int| 0 <= i < front.len() implies !(#[trigger] front[i]).contains('/') by {
            assert(front[i] == c[i]);
        }
        lemma_joined_splits(front);
        assert(join(c, "/"@) =~= join(front, "/"@) + seq!['/'] + last);
        lemma_split_joined(join(front, "/"@), '/', last);
        assert(front + seq![last] =~= c);
    }
}

proof fn lemma_named_part(pieces: Seq<Seq<char>>, n: int)
    requires
        0 <= n <= pieces.len(),
    ensures
        0 <= last_count(pieces, n) <= n,
        last_count(pieces, n) > 0 ==> counts(pieces, last_count(pieces, n) - 1),
        named(pieces.take(n)) == named(pieces.take(last_count(pieces, n))),
    decreases n,
{
    if n > 0 && !counts(pieces, n - 1) {
        lemma_named_part(pieces, n - 1);
        assert(pieces.take(n).drop_last() =~= pieces.take(n - 1));
        assert(pieces.take(n).last() == pieces[n - 1]);
    }
}

/// The directory that holds a path has its components, but for the last one; so
/// it is another path, which the first one lies within.
pub proof fn parents_hold_their_children(p: Seq<char>)
    ensures
        parent(p) matches Some(d) ==> components(d) == components(p).drop_last() && within(d, p)
            && !within(p, d),
        parent(p) is None <==> components(p).len() == 0 || components(p) == seq!["/"@],
{
    reveal_strlit("/");
    reveal_strlit(".");
    let pieces = split(p, '/');
    let n = pieces.len() as int;
    lemma_pieces(p);
    lemma_named_part(pieces, n);
    assert(pieces.take(n) =~= pieces);
    let k = last_count(pieces, n);
    assert(named(Seq::<Seq<char>>::empty()) =~= Seq::<Seq<char>>::empty());
    if k == 0 {
        assert(pieces.take(0) =~= Seq::<Seq<char>>::empty());
        assert(components(p) =~= lead(p));
        if pieces[0] == "."@ {
            lemma_first_counts(pieces, n);
        }
    } else {
        let c = components(p);
        let d = parent(p)->0;
        lemma_named_part(pieces, k - 1);
        let j = last_count(pieces, k - 1);
        assert(pieces.take(k).drop_last() =~= pieces.take(k - 1));
        assert(pieces.take(k).last() == pieces[k - 1]);
        if k == 1 && pieces[0] == "."@ {
            assert(pieces.take(0) =~= Seq::<Seq<char>>::empty());
            assert(!is_absolute(p));
            assert(c =~= seq!["."@]);
            assert(c[0].len() == 1 && c[0][0] == '.');
            assert("/"@[0] == '/');
        } else {
            assert(named(pieces) == named(pieces.take(j)).push(pieces[k - 1]));
            assert(c.drop_last() =~= lead(p) + named(pieces.take(j)));
            assert(c.last() == pieces[k - 1]);
            if c == seq!["/"@] {
                assert(pieces[k - 1].contains('/')) by {
                    assert(pieces[k - 1][0] == '/');
                }
            }
        }
        if j > 0 {
            let front = pieces.take(j);
            assert forall|i: int| 0 <= i < front.len() implies !(#[trigger] front[i]).contains(
                '/',
            ) by {
                assert(front[i] == pieces[i]);
            }
            lemma_joined_splits(front);
            lemma_pieces(d);
            assert(front[0] == pieces[0]);
            assert(is_absolute(p) ==> j > 1);
            assert(lead(d) == lead(p));
        } else {
            assert(pieces.take(0) =~= Seq::<Seq<char>>::empty());
            if pieces[0] == "."@ && k > 1 {
                lemma_first_counts(pieces, k - 1);
            }
            lemma_empty_and_root();
        }
        assert(components(d) =~= c.drop_last());
        assert(c.take(c.len() - 1) =~= c.drop_last());
    }
}

proof fn lemma_first_counts(pieces: Seq<Seq<char>>, n: int)
    requires
        0 < n <= pieces.len(),
        counts(pieces, 0),
    ensures
        last_count(pieces, n) > 0,
    decreases n,
{
    if n > 1 && !counts(pieces, n - 1) {
        lemma_first_counts(pieces, n - 1);
    }
}

proof fn lemma_empty_and_root()
    ensures
        components(Seq::empty()) == Seq::<Seq<char>>::empty(),
        components("/"@) == seq!["/"@],
{
    reveal_strlit("/");
    reveal_strlit(".");
    let none = Seq::<char>::empty();
    lemma_position_is(none, '/', 0);
    assert(split(none, '/') =~= seq![none]);
    assert(seq![none].drop_last() =~= Seq::<Seq<char>>::empty());
    assert(named(Seq::<Seq<char>>::empty()) =~= Seq::<Seq<char>>::empty());
    assert(seq![none].last() == none);
    assert(named(seq![none]) =~= Seq::<Seq<char>>::empty());
    assert(components(none) =~= Seq::<Seq<char>>::empty());
    lemma_split_joined(none, '/', none);
    assert("/"@ =~= none + seq!['/'] + none);
    let two = split("/"@, '/');
    assert(two =~= seq![none, none]);
    assert(two.drop_last() =~= seq![none]);
    assert(two.last() == none);
    assert(named(two) =~= Seq::<Seq<char>>::empty());
    assert(components("/"@) =~= seq!["/"@]);
}

proof fn lemma_component_at(pieces: Seq<Seq<char>>, i: int, n: int)
    requires
        0 <= i <= pieces.len(),
        0 <= n,
        i > 0 || pieces[0] != "."@,
    ensures
        i <= component_at(pieces, i, n) <= pieces.len(),
        component_at(pieces, i, n) < pieces.len() ==> counts(pieces, component_at(pieces, i, n))
            && named(pieces.subrange(i, component_at(pieces, i, n))).len() == n,
        named(pieces.subrange(i, component_at(pieces, i, n))).len() <= n,
    decreases pieces.len() - i,
{
    let f = component_at(pieces, i, n);
    assert(named(Seq::<Seq<char>>::empty()) =~= Seq::<Seq<char>>::empty());
    assert(pieces.subrange(i, i) =~= Seq::<Seq<char>>::empty());
    if i < pieces.len() && !(counts(pieces, i) && n == 0) {
        let left = if counts(pieces, i) {
            n - 1
        } else {
            n
        };
        lemma_component_at(pieces, i + 1, left);
        let one = seq![pieces[i]];
        assert(pieces.subrange(i, f) =~= one + pieces.subrange(i + 1, f));
        lemma_named(one, pieces.subrange(i + 1, f));
        assert(one.drop_last() =~= Seq::<Seq<char>>::empty());
        assert(one.last() == pieces[i]);
    }
}

proof fn lemma_last_count(pieces: Seq<Seq<char>>, i: int, n: int)
    requires
        0 <= i < n <= pieces.len(),
        counts(pieces, i),
    ensures
        i < last_count(pieces, n),
    decreases n,
{
    if !counts(pieces, n - 1) {
        lemma_last_count(pieces, i, n - 1);
    }
}

/// What is left of a path from the piece `from` on, which is a component.
proof fn lemma_left(p: Seq<char>, from: int)
    requires
        0 <= from < last_count(split(p, '/'), split(p, '/').len() as int),
        from == 0 || counts(split(p, '/'), from),
    ensures
        components(
            join(
                split(p, '/').subrange(
                    from,
                    last_count(split(p, '/'), split(p, '/').len() as int),
                ),
                "/"@,
            ),
        ) == (if from == 0 {
            components(p)
        } else {
            named(split(p, '/').skip(from))
        }),
{
    let pieces = split(p, '/');
    let len = pieces.len() as int;
    let to = last_count(pieces, len);
    lemma_pieces(p);
    lemma_named_part(pieces, len);
    assert(pieces.take(len) =~= pieces);
    let kept = pieces.subrange(from, to);
    let r = join(kept, "/"@);
    assert forall|i: int| 0 <= i < kept.len() implies !(#[trigger] kept[i]).contains('/') by {
        assert(kept[i] == pieces[from + i]);
    }
    lemma_joined_splits(kept);
    lemma_pieces(r);
    assert(kept[0] == pieces[from]);
    if from == 0 {
        reveal_strlit(".");
        assert(kept =~= pieces.take(to));
        assert(counts(pieces, to - 1));
        assert(is_absolute(p) ==> to > 1);
        assert(lead(r) == lead(p));
    } else {
        let front = pieces.take(from);
        lemma_named(front, pieces.skip(from));
        lemma_named(front, kept);
        assert(front + pieces.skip(from) =~= pieces);
        assert(front + kept =~= pieces.take(to));
        let whole = named(pieces);
        assert(named(kept) =~= whole.skip(named(front).len() as int));
        assert(named(pieces.skip(from)) =~= whole.skip(named(front).len() as int));
        assert(lead(r) =~= Seq::<Seq<char>>::empty());
        assert(components(r) =~= named(kept));
    }
}

/// The components that come after the first `n`, which stand before the piece
/// `from`.
proof fn lemma_after_first(p: Seq<char>, n: int, from: int)
    requires
        0 < n <= components(p).len(),
        from == component_at(
            split(p, '/'),
            0,
            if is_absolute(p) {
                n - 1
            } else {
                n
            },
        ),
    ensures
        0 < from <= split(p, '/').len(),
        from < split(p, '/').len() ==> counts(split(p, '/'), from),
        components(p).skip(n) == named(split(p, '/').skip(from)),
{
    reveal_strlit(".");
    let pieces = split(p, '/');
    lemma_pieces(p);
    assert(named(Seq::<Seq<char>>::empty()) =~= Seq::<Seq<char>>::empty());
    let start: int = if pieces[0] == "."@ {
        1
    } else {
        0
    };
    let skipped = n - lead(p).len();
    assert(from == component_at(pieces, start, skipped));
    lemma_component_at(pieces, start, skipped);
    let front = pieces.subrange(start, from);
    let rest = pieces.skip(from);
    let head = pieces.take(start);
    assert(pieces =~= head + (front + rest));
    lemma_named(head, front + rest);
    lemma_named(front, rest);
    if start == 1 {
        assert(head.drop_last() =~= Seq::<Seq<char>>::empty());
        assert(head.last() == "."@);
    } else {
        assert(head =~= Seq::<Seq<char>>::empty());
    }
    assert(named(head) =~= Seq::<Seq<char>>::empty());
    assert(components(p) =~= lead(p) + named(front) + named(rest));
    if from == pieces.len() {
        assert(rest =~= Seq::<Seq<char>>::empty());
    }
    assert(components(p).skip(n) =~= named(rest));
}

/// A path as seen from a directory that it lies within has the components that
/// the directory does not have.
pub proof fn relative_paths_lead_back(base: Seq<char>, p: Seq<char>)
    requires
        within(base, p),
    ensures
        components(relative(base, p)) == below(base, p),
        components(base) + components(relative(base, p)) == components(p),
{
    let pieces = split(p, '/');
    let len = pieces.len() as int;
    let n = components(base).len() as int;
    let to = last_count(pieces, len);
    lemma_pieces(p);
    lemma_named_part(pieces, len);
    assert(pieces.take(len) =~= pieces);
    lemma_empty_and_root();
    assert(named(Seq::<Seq<char>>::empty()) =~= Seq::<Seq<char>>::empty());
    assert(components(base) + below(base, p) =~= components(p));
    if n > 0 {
        let from = component_at(
            pieces,
            0,
            if is_absolute(p) {
                n - 1
            } else {
                n
            },
        );
        lemma_after_first(p, n, from);
        if from < len {
            lemma_last_count(pieces, from, len);
            lemma_left(p, from);
        } else {
            assert(pieces.skip(from) =~= Seq::<Seq<char>>::empty());
        }
    } else {
        assert(below(base, p) =~= components(p));
        if to > 0 {
            lemma_left(p, 0);
        } else {
            assert(pieces.take(0) =~= Seq::<Seq<char>>::empty());
            if pieces[0] == "."@ {
                lemma_first_counts(pieces, len);
            }
            assert(components(p) =~= lead(p));
        }
    }
}

} // verus!
