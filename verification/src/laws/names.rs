//! Paths and the names in them, and the text that pages show.

use vstd::prelude::*;

use crate::digits::{decimal, two_digits};
use crate::laws::outputs::lemma_last_part;
use crate::laws::wording::{lemma_lacking, lemma_not_prefixed};
use crate::paths::{
    components, counts, extension, file_name, is_absolute, last_count, lead, named, parent,
    same_path, starts, within,
};
use crate::servers::dashboard::{level, rate_text};
use crate::servers::lookup::candidate;
use crate::servers::pages::{
    escaped, listing, listing_line, placed, rows, shown_path, size_label, DirEntryView,
};
use crate::text::{
    is_space, join, last_position, lemma_position, lemma_split_joined, less, lower, position,
    replace, split, starts_with, trim_start, upper, Class,
};

verus! {

// ---------------------------------------------------------------------------
// Characters
// ---------------------------------------------------------------------------

/// Letters change their case, and nothing else does.
pub proof fn letters_change_their_case(s: Seq<char>, i: int)
    requires
        0 <= i < s.len(),
    ensures
        lower(s).len() == s.len(),
        'A' <= s[i] <= 'Z' ==> lower(s)[i] as int == s[i] as int + 32,
        !('A' <= s[i] <= 'Z') ==> lower(s)[i] == s[i],
        upper(s).len() == s.len(),
        'a' <= s[i] <= 'z' ==> upper(s)[i] as int == s[i] as int - 32,
        !('a' <= s[i] <= 'z') ==> upper(s)[i] == s[i],
{
}

/// Space, the tabulator and line breaks are white space; letters, digits and the usual
/// signs are not.
pub proof fn space_is_known(c: char)
    ensures
        is_space(' ') && is_space('\t') && is_space('\n') && is_space('\r'),
        33 <= c as u32 <= 126 ==> !is_space(c),
{
}

/// Texts are ordered by the first character in which they differ; and a text comes
/// before all that it starts.
pub proof fn texts_are_ordered(a: Seq<char>, c: char, x: Seq<char>, d: char, y: Seq<char>)
    ensures
        c != d ==> (less(a + (seq![c] + x), a + (seq![d] + y)) <==> c < d),
        less(a, a + (seq![c] + x)),
        !less(a + (seq![c] + x), a),
    decreases a.len(),
{
    let p = a + (seq![c] + x);
    let q = a + (seq![d] + y);
    if a.len() == 0 {
        assert(p[0] == c && q[0] == d);
    } else {
        texts_are_ordered(a.skip(1), c, x, d, y);
        assert(p.skip(1) =~= a.skip(1) + (seq![c] + x));
        assert(q.skip(1) =~= a.skip(1) + (seq![d] + y));
        assert(p[0] == a[0] && q[0] == a[0]);
    }
}

// ---------------------------------------------------------------------------
// Paths
// ---------------------------------------------------------------------------

/// Whether a text is the name of something in a directory.
pub open spec fn is_name(n: Seq<char>) -> bool {
    n.len() > 0 && !n.contains('/') && n != "."@ && n != ".."@
}

proof fn lemma_child(dir: Seq<char>, name: Seq<char>)
    requires
        dir.len() > 0,
        name.len() > 0,
        !name.contains('/'),
    ensures
        split(dir + seq!['/'] + name, '/') == split(dir, '/').push(name),
        split(dir, '/').len() > 0,
        is_absolute(dir + seq!['/'] + name) == is_absolute(dir),
        name != "."@ ==> components(dir + seq!['/'] + name) == components(dir).push(name),
{
    let w = dir + seq!['/'] + name;
    lemma_split_joined(dir, '/', name);
    lemma_lacking(name, '/');
    let p = split(dir, '/');
    assert(p.len() > 0) by {
        lemma_position(dir, '/');
    }
    assert(split(w, '/') =~= p.push(name));
    assert(w[0] == dir[0]);
    assert(split(w, '/')[0] == p[0]);
    assert(p.push(name).drop_last() =~= p);
    assert(components(w) =~= lead(dir) + named(split(w, '/')));
    if name != "."@ {
        assert(components(w) =~= components(dir).push(name));
    }
}

/// A path in a directory ends with its name, and what starts it is the directory.
pub proof fn names_end_paths(dir: Seq<char>, name: Seq<char>)
    requires
        dir.len() > 0,
        is_name(name),
    ensures
        file_name(dir + seq!['/'] + name) == Some(name),
        components(dir + seq!['/'] + name) == components(dir).push(name),
        within(dir, dir + seq!['/'] + name),
        !same_path(dir, dir + seq!['/'] + name),
        is_absolute(dir + seq!['/'] + name) == is_absolute(dir),
{
    lemma_child(dir, name);
    reveal_strlit("/");
    assert("/"@[0] == '/');
    assert(name != "/"@) by {
        if name == "/"@ {
            assert(name.contains(name[0]));
        }
    }
    let c = components(dir + seq!['/'] + name);
    assert(c.last() == name);
    assert(c.take(components(dir).len() as int) =~= components(dir));
}

/// Of two names in a directory neither path lies within the other, however alike they
/// start.
pub proof fn siblings_are_apart(dir: Seq<char>, a: Seq<char>, b: Seq<char>)
    requires
        dir.len() > 0,
        is_name(a),
        is_name(b),
        a != b,
    ensures
        !within(dir + seq!['/'] + a, dir + seq!['/'] + b),
        !within(dir + seq!['/'] + a, dir),
{
    lemma_child(dir, a);
    lemma_child(dir, b);
    let c = components(dir).push(a);
    let d = components(dir).push(b);
    if starts(c, d) {
        assert(d.take(c.len() as int)[components(dir).len() as int] == b);
    }
}

proof fn lemma_joined_back(s: Seq<char>)
    ensures
        join(split(s, '/'), "/"@) == s,
    decreases s.len(),
{
    reveal_strlit("/");
    assert("/"@ =~= seq!['/']);
    lemma_position(s, '/');
    let i = position(s, '/');
    if i < s.len() {
        let t = s.skip(i + 1);
        lemma_joined_back(t);
        lemma_position(t, '/');
        lemma_join_front(s.take(i), split(t, '/'), "/"@);
        assert(s =~= s.take(i) + "/"@ + t);
    }
}

proof fn lemma_join_front(w: Seq<char>, rest: Seq<Seq<char>>, sep: Seq<char>)
    requires
        rest.len() > 0,
    ensures
        join(seq![w] + rest, sep) == w + sep + join(rest, sep),
    decreases rest.len(),
{
    let all = seq![w] + rest;
    assert(all.last() == rest.last());
    if rest.len() == 1 {
        assert(all.drop_last() =~= seq![w]);
        assert(join(seq![w], sep) == w);
    } else {
        let d = rest.drop_last();
        lemma_join_front(w, d, sep);
        assert(all.drop_last() =~= seq![w] + d);
        assert(w + sep + join(d, sep) + sep + rest.last() =~= w + sep + (join(d, sep) + sep
            + rest.last()));
    }
}

/// The directory that something lies in is its path without its name.
pub proof fn parents_hold_names(dir: Seq<char>, name: Seq<char>)
    requires
        dir.len() > 0,
        is_name(name),
        split(dir, '/').last().len() > 0,
        split(dir, '/').last() != "."@,
    ensures
        parent(dir + seq!['/'] + name) == Some(dir),
{
    lemma_child(dir, name);
    let p = split(dir, '/');
    let q = p.push(name);
    let n = q.len() as int;
    assert(counts(q, n - 1));
    assert(last_count(q, n) == n);
    assert(q[n - 2] == p.last());
    assert(counts(q, n - 2));
    assert(last_count(q, n - 1) == n - 1);
    assert(q.take(n - 1) =~= p);
    lemma_joined_back(dir);
}

/// The ending of a name is what stands behind its last dot; a name without one has none,
/// nor has one whose only dot is its first character.
pub proof fn endings_stand_behind_the_last_dot(
    dir: Seq<char>,
    stem: Seq<char>,
    ending: Seq<char>,
    plain: Seq<char>,
)
    requires
        dir.len() > 0,
        stem.len() > 0,
        !stem.contains('/'),
        !ending.contains('/') && !ending.contains('.'),
        ending.len() > 0,
        plain.len() > 0 && !plain.contains('/') && !plain.contains('.'),
    ensures
        extension(dir + seq!['/'] + (stem + seq!['.'] + ending)) == Some(ending),
        extension(dir + seq!['/'] + plain) is None,
        extension(dir + seq!['/'] + (seq!['.'] + plain)) is None,
{
    reveal_strlit(".");
    reveal_strlit("..");
    let f = stem + seq!['.'] + ending;
    assert(!f.contains('/')) by {
        if f.contains('/') {
            let i = choose|i: int| 0 <= i < f.len() && f[i] == '/';
            if i < stem.len() {
                assert(stem[i] == '/');
            } else {
                assert(ending[i - stem.len() - 1] == '/');
            }
        }
    }
    assert(f != "."@ && f != ".."@) by {
        assert(f.len() >= 3);
        assert("."@.len() == 1 && ".."@.len() == 2);
    }
    names_end_paths(dir, f);
    lemma_last_part(stem, '.', ending);
    lemma_last_is(f, '.', stem.len() as int);
    assert(f.skip(stem.len() as int + 1) =~= ending);
    assert(plain != "."@ && plain != ".."@) by {
        assert(plain.contains(plain[0]));
        assert("."@[0] == '.' && ".."@[0] == '.');
    }
    names_end_paths(dir, plain);
    lemma_lacks(plain, '.');
    let h = seq!['.'] + plain;
    assert(!h.contains('/')) by {
        if h.contains('/') {
            let i = choose|i: int| 0 <= i < h.len() && h[i] == '/';
            assert(plain[i - 1] == '/');
        }
    }
    assert(h != "."@ && h != ".."@) by {
        assert(h[1] == plain[0]);
        assert(plain.contains(plain[0]));
        assert("."@.len() == 1 && ".."@[1] == '.');
    }
    names_end_paths(dir, h);
    assert(h.skip(1) =~= plain);
    lemma_last_is(h, '.', 0);
}

proof fn lemma_last_is(s: Seq<char>, c: char, i: int)
    requires
        0 <= i < s.len(),
        s[i] == c,
        !s.skip(i + 1).contains(c),
    ensures
        last_position(s, c) == i,
    decreases s.len(),
{
    if i < s.len() - 1 {
        let d = s.drop_last();
        let e = s.skip(i + 1);
        assert(e[s.len() - i - 2] == s.last());
        assert(e.contains(s.last()));
        let g = d.skip(i + 1);
        assert(!g.contains(c)) by {
            if g.contains(c) {
                let j = choose|j: int| 0 <= j < g.len() && g[j] == c;
                assert(e[j] == c);
            }
        }
        lemma_last_is(d, c, i);
    }
}

proof fn lemma_lacks(s: Seq<char>, c: char)
    requires
        !s.contains(c),
    ensures
        last_position(s, c) == -1,
    decreases s.len(),
{
    if s.len() > 0 {
        assert(s.contains(s[s.len() - 1]));
        let d = s.drop_last();
        assert(!d.contains(c)) by {
            if d.contains(c) {
                let j = choose|j: int| 0 <= j < d.len() && d[j] == c;
                assert(s[j] == c);
            }
        }
        lemma_lacks(d, c);
    }
}

/// What a request asks for lies below the directory that is served, however many slashes
/// it starts with.
pub proof fn requests_are_for_what_is_served(base: Seq<char>, rest: Seq<char>)
    requires
        base.len() > 0 && base.last() != '/',
        rest.len() > 0 && rest[0] != '/',
    ensures
        candidate(base, seq!['/'] + rest) == base + seq!['/'] + rest,
        candidate(base, seq!['/', '/'] + rest) == base + seq!['/'] + rest,
        candidate(base, seq!['/']) == base,
        candidate(base, Seq::empty()) == base,
{
    reveal_strlit("/");
    assert("/"@ =~= seq!['/']);
    let one = seq!['/'] + rest;
    let two = seq!['/', '/'] + rest;
    assert(one.skip(1) =~= rest);
    assert(two.skip(1) =~= one);
    assert(one[0] == '/' && two[0] == '/');
    assert(trim_start(rest, Class::One('/')) == rest);
    assert(trim_start(one, Class::One('/')) == rest);
    assert(trim_start(two, Class::One('/')) == rest);
    let s = seq!['/'];
    assert(s.skip(1) =~= Seq::empty());
    reveal_with_fuel(trim_start, 3);
}

// ---------------------------------------------------------------------------
// Pages
// ---------------------------------------------------------------------------

proof fn lemma_replace_push(s: Seq<char>, x: char, c: char, by: Seq<char>)
    ensures
        replace(s.push(x), c, by) == replace(s, c, by) + (if x == c {
            by
        } else {
            seq![x]
        }),
{
    assert(s.push(x).drop_last() =~= s);
}

proof fn lemma_replace_joined(a: Seq<char>, b: Seq<char>, c: char, by: Seq<char>)
    ensures
        replace(a + b, c, by) == replace(a, c, by) + replace(b, c, by),
    decreases b.len(),
{
    if b.len() == 0 {
        assert(a + b =~= a);
        assert(replace(b, c, by) =~= Seq::empty());
        assert(replace(a, c, by) + Seq::empty() =~= replace(a, c, by));
    } else {
        let d = b.drop_last();
        lemma_replace_joined(a, d, c, by);
        assert((a + b).drop_last() =~= a + d);
        assert((a + b).last() == b.last());
        let t = if b.last() == c {
            by
        } else {
            seq![b.last()]
        };
        assert(replace(a, c, by) + replace(d, c, by) + t =~= replace(a, c, by) + (replace(d, c, by)
            + t));
    }
}

proof fn lemma_replace_lacking(s: Seq<char>, c: char, by: Seq<char>)
    requires
        !s.contains(c),
    ensures
        replace(s, c, by) == s,
    decreases s.len(),
{
    if s.len() > 0 {
        let d = s.drop_last();
        assert(s.contains(s[s.len() - 1]));
        assert(!d.contains(c)) by {
            if d.contains(c) {
                let j = choose|j: int| 0 <= j < d.len() && d[j] == c;
                assert(s[j] == c);
            }
        }
        lemma_replace_lacking(d, c, by);
        assert(d + seq![s.last()] =~= s);
    }
}

/// Text in a page is written character by character: four characters as their entities,
/// all others as they are.
pub proof fn text_is_escaped(s: Seq<char>, c: char)
    ensures
        escaped(s.push('&')) == escaped(s) + "&amp;"@,
        escaped(s.push('<')) == escaped(s) + "&lt;"@,
        escaped(s.push('>')) == escaped(s) + "&gt;"@,
        escaped(s.push('"')) == escaped(s) + "&quot;"@,
        c != '&' && c != '<' && c != '>' && c != '"' ==> escaped(s.push(c)) == escaped(s).push(c),
        escaped(Seq::empty()) == Seq::<char>::empty(),
{
    reveal_strlit("&amp;");
    reveal_strlit("&lt;");
    reveal_strlit("&gt;");
    reveal_strlit("&quot;");
    lemma_escaped_push(s, '&', "&amp;"@);
    lemma_escaped_push(s, '<', "&lt;"@);
    lemma_escaped_push(s, '>', "&gt;"@);
    lemma_escaped_push(s, '"', "&quot;"@);
    if c != '&' && c != '<' && c != '>' && c != '"' {
        lemma_escaped_push(s, c, seq![c]);
        assert(escaped(s) + seq![c] =~= escaped(s).push(c));
    }
}

proof fn lemma_escaped_push(s: Seq<char>, x: char, t: Seq<char>)
    requires
        x == '&' ==> t == "&amp;"@,
        x == '<' ==> t == "&lt;"@,
        x == '>' ==> t == "&gt;"@,
        x == '"' ==> t == "&quot;"@,
        x != '&' && x != '<' && x != '>' && x != '"' ==> t == seq![x],
    ensures
        escaped(s.push(x)) == escaped(s) + t,
{
    reveal_strlit("&amp;");
    reveal_strlit("&lt;");
    reveal_strlit("&gt;");
    reveal_strlit("&quot;");
    let a = replace(s, '&', "&amp;"@);
    let ta = if x == '&' {
        "&amp;"@
    } else {
        seq![x]
    };
    lemma_replace_push(s, x, '&', "&amp;"@);
    let b = replace(a, '<', "&lt;"@);
    let tb = if x == '<' {
        "&lt;"@
    } else {
        ta
    };
    lemma_replace_joined(a, ta, '<', "&lt;"@);
    if x == '<' {
        assert(seq![x] =~= Seq::<char>::empty().push(x));
        lemma_replace_push(Seq::empty(), x, '<', "&lt;"@);
        assert(Seq::<char>::empty() + "&lt;"@ =~= "&lt;"@);
    } else {
        lemma_replace_lacking(ta, '<', "&lt;"@);
    }
    let c = replace(b, '>', "&gt;"@);
    let tc = if x == '>' {
        "&gt;"@
    } else {
        tb
    };
    lemma_replace_joined(b, tb, '>', "&gt;"@);
    if x == '>' {
        assert(seq![x] =~= Seq::<char>::empty().push(x));
        lemma_replace_push(Seq::empty(), x, '>', "&gt;"@);
        assert(Seq::<char>::empty() + "&gt;"@ =~= "&gt;"@);
    } else {
        lemma_replace_lacking(tb, '>', "&gt;"@);
    }
    lemma_replace_joined(c, tc, '"', "&quot;"@);
    if x == '"' {
        assert(seq![x] =~= Seq::<char>::empty().push(x));
        lemma_replace_push(Seq::empty(), x, '"', "&quot;"@);
        assert(Seq::<char>::empty() + "&quot;"@ =~= "&quot;"@);
    } else {
        lemma_replace_lacking(tc, '"', "&quot;"@);
    }
}

/// A directory is listed with a slash behind its name and without a size, a file with its
/// size; hidden names are not listed; and every other entry is listed once.
pub proof fn entries_are_listed(entries: Seq<DirEntryView>, e: DirEntryView)
    ensures
        e.is_dir ==> listing_line(e) == (e.name + seq!['/'], None::<u64>),
        !e.is_dir ==> listing_line(e) == (e.name, e.size),
        starts_with(e.name, ".ht"@) ==> listing(entries.push(e)) == listing(entries),
        !starts_with(e.name, ".ht"@) ==> listing(entries.push(e)).len() == listing(entries).len()
            + 1 && listing(entries.push(e)).contains(listing_line(e)),
        listing(Seq::empty()) == Seq::<(Seq<char>, Option<u64>)>::empty(),
{
    reveal_strlit("/");
    assert("/"@ =~= seq!['/']);
    assert(entries.push(e).drop_last() =~= entries);
    lemma_placed_once(listing(entries), listing_line(e));
}

proof fn lemma_placed_once(list: Seq<(Seq<char>, Option<u64>)>, e: (Seq<char>, Option<u64>))
    ensures
        placed(list, e).len() == list.len() + 1,
        placed(list, e).contains(e),
    decreases list.len(),
{
    if list.len() == 0 || !less(e.0, list.last().0) {
        assert(list.push(e)[list.len() as int] == e);
    } else {
        let d = list.drop_last();
        lemma_placed_once(d, e);
        let p = placed(d, e);
        let i = choose|i: int| 0 <= i < p.len() && p[i] == e;
        assert(p.push(list.last())[i] == e);
    }
}

/// A path is shown with a slash before it; and a size that is not known is not shown.
pub proof fn listings_show_paths_and_sizes(raw: Seq<char>, n: u64)
    ensures
        raw.len() > 0 && raw[0] == '/' ==> shown_path(raw) == raw,
        raw.len() == 0 || raw[0] != '/' ==> shown_path(raw) == seq!['/'] + raw,
        size_label(None) == Seq::<char>::empty(),
        size_label(Some(n)) == crate::supports::format::size_text(n as int),
{
    reveal_strlit("/");
    reveal_strlit("");
    assert("/"@ =~= seq!['/']);
    if raw.len() > 0 && raw[0] == '/' {
        assert(raw.subrange(0, 1) =~= "/"@);
        assert(starts_with(raw, "/"@));
    } else {
        lemma_not_prefixed("/"@, raw);
    }
}

/// The rate is told for one second, with two digits behind the point; and a level that
/// has fallen below nothing is told as nothing.
pub proof fn rates_are_told(k: int, n: i64)
    requires
        0 <= k,
    ensures
        rate_text(60 * k) == decimal(k) + seq!['.', '0', '0'],
        rate_text(60 * k + 30) == decimal(k) + seq!['.', '5', '0'],
        rate_text(60 * k + 15) == decimal(k) + seq!['.', '2', '5'],
        n > 0 ==> level(n) == decimal(n as int),
        n <= 0 ==> level(n) == seq!['0'],
{
    reveal_strlit(".");
    reveal_with_fuel(crate::digits::written, 3);
    assert((60 * k) / 60 == k && (60 * k) % 60 == 0);
    assert((60 * k + 30) / 60 == k && (60 * k + 30) % 60 == 30);
    assert((60 * k + 15) / 60 == k && (60 * k + 15) % 60 == 15);
    assert("."@ =~= seq!['.']);
    assert(two_digits(0) =~= seq!['0', '0']);
    assert(two_digits(50) =~= seq!['5', '0']);
    assert(two_digits(25) =~= seq!['2', '5']);
    assert(decimal(k) + seq!['.'] + two_digits(0) =~= decimal(k) + seq!['.', '0', '0']);
    assert(decimal(k) + seq!['.'] + two_digits(50) =~= decimal(k) + seq!['.', '5', '0']);
    assert(decimal(k) + seq!['.'] + two_digits(25) =~= decimal(k) + seq!['.', '2', '5']);
    assert(decimal(0) =~= seq!['0']);
}


/// Each line of a listing leads to its entry below the directory, and shows its name and
/// its size.
pub proof fn lines_lead_to_their_entries(
    list: Seq<(Seq<char>, Option<u64>)>,
    name: Seq<char>,
    size: Option<u64>,
    dir: Seq<char>,
)
    ensures
        rows(Seq::empty(), dir) == Seq::<char>::empty(),
        rows(list.push((name, size)), dir) == rows(list, dir) + ("<li><a href=\""@ + dir + seq!['/']
            + name + "\">"@ + escaped(name) + "</a><span class=\"size\">"@ + size_label(size)
            + "</span></li>"@),
{
    reveal_strlit("");
    reveal_strlit("/");
    assert("/"@ =~= seq!['/']);
    let p = list.push((name, size));
    assert(p.drop_last() =~= list);
    let r = rows(list, dir);
    let a = "<li><a href=\""@;
    let b = "\">"@;
    let c = "</a><span class=\"size\">"@;
    let e = "</span></li>"@;
    assert(r + a + dir + seq!['/'] + name + b + escaped(name) + c + size_label(size) + e =~= r + (a
        + dir + seq!['/'] + name + b + escaped(name) + c + size_label(size) + e));
}

} // verus!
