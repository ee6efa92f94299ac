//! How texts are put together and taken apart again.

use vstd::prelude::*;

use crate::digits::{decimal, digit, number16, number64, written_reads_back};
use crate::text::{
    after, before, find, is_space, lemma_find, lemma_parted, lemma_position_is, position,
    replace_all, split, split_once, stands_at, starts_with, strip_prefix, trim, trim_end,
    trim_start, word_len, words, Class,
};

verus! {

// ---------------------------------------------------------------------------
// Numbers
// ---------------------------------------------------------------------------

/// A number is written in digits.
pub proof fn lemma_decimal_digits(n: int)
    requires
        0 <= n,
    ensures
        decimal(n).len() > 0,
        forall|i: int| 0 <= i < decimal(n).len() ==> '0' <= #[trigger] decimal(n)[i] <= '9',
    decreases n,
{
    if n >= 10 {
        lemma_decimal_digits(n / 10);
        let front = decimal(n / 10);
        assert(decimal(n) == front.push(digit(n % 10)));
    }
}

/// A number that was written reads back, with as many bits as it needs.
pub proof fn numbers_read_back(n: int)
    requires
        0 <= n <= 0xffff_ffff_ffff_ffff,
    ensures
        number64(decimal(n)) == Some(n as u64),
        n <= 0xffff ==> number16(decimal(n)) == Some(n as u16),
        n > 0xffff ==> number16(decimal(n)) is None,
{
    written_reads_back(n, 10);
}

// ---------------------------------------------------------------------------
// Parts
// ---------------------------------------------------------------------------

/// A character that a text lacks parts nothing of it.
pub proof fn lemma_lacking(s: Seq<char>, c: char)
    requires
        !s.contains(c),
    ensures
        position(s, c) == s.len(),
        before(s, c) == s,
        after(s, c) == Seq::<char>::empty(),
        split(s, c) == seq![s],
        split_once(s, c) is None,
{
    lemma_position_is(s, c, s.len() as int);
    assert(s.take(s.len() as int) =~= s);
}

/// What stands before and after the first of a character.
pub proof fn lemma_around(a: Seq<char>, c: char, b: Seq<char>)
    requires
        !a.contains(c),
    ensures
        before(a + seq![c] + b, c) == a,
        after(a + seq![c] + b, c) == b,
        split_once(a + seq![c] + b, c) == Some((a, b)),
{
    let s = a + seq![c] + b;
    assert forall|j: int| 0 <= j < a.len() implies s[j] != c by {
        assert(s[j] == a[j]);
    }
    lemma_position_is(s, c, a.len() as int);
    lemma_parted(a, c, b);
    assert(s.take(a.len() as int) =~= a);
}

/// A text starts with what was put before it.
pub proof fn lemma_prefixed(p: Seq<char>, s: Seq<char>)
    ensures
        starts_with(p + s, p),
        strip_prefix(p + s, p) == Some(s),
{
    assert((p + s).subrange(0, p.len() as int) =~= p);
    assert((p + s).skip(p.len() as int) =~= s);
}

/// A text with another first character does not start with a text.
pub proof fn lemma_not_prefixed(p: Seq<char>, s: Seq<char>)
    requires
        p.len() > 0,
        s.len() == 0 || s[0] != p[0],
    ensures
        !starts_with(s, p),
        strip_prefix(s, p) is None,
{
    if starts_with(s, p) {
        assert(s.subrange(0, p.len() as int)[0] == s[0]);
    }
}

// ---------------------------------------------------------------------------
// White space
// ---------------------------------------------------------------------------

/// Whether there is nothing to trim of a text.
pub open spec fn is_tight(s: Seq<char>) -> bool {
    s.len() > 0 ==> !is_space(s[0]) && !is_space(s.last())
}

/// A text with nothing to trim stays as it is.
pub proof fn lemma_tight(s: Seq<char>)
    requires
        is_tight(s),
    ensures
        trim(s) == s,
{
}

/// Trimming the front takes white space in front away.
pub proof fn lemma_trim_front(w: Seq<char>, s: Seq<char>)
    requires
        forall|i: int| 0 <= i < w.len() ==> is_space(#[trigger] w[i]),
    ensures
        trim_start(w + s, Class::Space) == trim_start(s, Class::Space),
    decreases w.len(),
{
    if w.len() == 0 {
        assert(w + s =~= s);
    } else {
        assert((w + s).skip(1) =~= w.skip(1) + s);
        assert forall|i: int| 0 <= i < w.skip(1).len() implies is_space(#[trigger] w.skip(1)[i]) by {
            assert(w.skip(1)[i] == w[i + 1]);
        }
        assert((w + s)[0] == w[0]);
        lemma_trim_front(w.skip(1), s);
    }
}

/// Trimming the end takes white space at the end away.
pub proof fn lemma_trim_back(s: Seq<char>, w: Seq<char>, k: Class)
    requires
        forall|i: int| 0 <= i < w.len() ==> k.holds(#[trigger] w[i]),
    ensures
        trim_end(s + w, k) == trim_end(s, k),
    decreases w.len(),
{
    if w.len() == 0 {
        assert(s + w =~= s);
    } else {
        assert((s + w).drop_last() =~= s + w.drop_last());
        assert((s + w).last() == w[w.len() - 1]);
        assert forall|i: int| 0 <= i < w.drop_last().len() implies k.holds(
            #[trigger] w.drop_last()[i],
        ) by {
            assert(w.drop_last()[i] == w[i]);
        }
        lemma_trim_back(s, w.drop_last(), k);
    }
}

/// White space around a text is trimmed away, and nothing else is.
pub proof fn trimming_takes_space_away(a: Seq<char>, s: Seq<char>, b: Seq<char>)
    requires
        forall|i: int| 0 <= i < a.len() ==> is_space(#[trigger] a[i]),
        forall|i: int| 0 <= i < b.len() ==> is_space(#[trigger] b[i]),
        is_tight(s),
    ensures
        trim(a + s + b) == s,
{
    assert(a + s + b =~= a + (s + b));
    lemma_trim_front(a, s + b);
    if s.len() == 0 {
        assert(s + b =~= b);
        assert(b + Seq::<char>::empty() =~= b);
        lemma_trim_front(b, Seq::empty());
        assert(s =~= Seq::<char>::empty());
    } else {
        assert((s + b)[0] == s[0]);
        lemma_trim_back(s, b, Class::Space);
    }
}

/// A text that starts with no white space is a word up to its first white space.
pub proof fn lemma_word_len_is(s: Seq<char>, n: int)
    requires
        0 <= n <= s.len(),
        forall|i: int| 0 <= i < n ==> !is_space(#[trigger] s[i]),
        n < s.len() ==> is_space(s[n]),
    ensures
        word_len(s) == n,
    decreases s.len(),
{
    if n > 0 {
        assert forall|i: int| 0 <= i < n - 1 implies !is_space(#[trigger] s.skip(1)[i]) by {
            assert(s.skip(1)[i] == s[i + 1]);
        }
        lemma_word_len_is(s.skip(1), n - 1);
    }
}

/// Whether a text is a word.
pub open spec fn is_word(w: Seq<char>) -> bool {
    w.len() > 0 && forall|i: int| 0 <= i < w.len() ==> !is_space(#[trigger] w[i])
}

/// A word and what follows it after white space.
pub proof fn words_are_parted_by_space(w: Seq<char>, c: char, rest: Seq<char>)
    requires
        is_word(w),
        is_space(c),
    ensures
        words(w) == seq![w],
        words(w + seq![c] + rest) == seq![w] + words(rest),
        words(seq![c] + rest) == words(rest),
{
    assert(!is_space(w[0]));
    lemma_word_len_is(w, w.len() as int);
    assert(w.take(w.len() as int) =~= w);
    assert(w.skip(w.len() as int) =~= Seq::<char>::empty());
    assert(words(w) == seq![w] + words(Seq::empty()));
    assert(seq![w] + Seq::<Seq<char>>::empty() =~= seq![w]);
    let s = w + seq![c] + rest;
    assert(s[0] == w[0]);
    assert forall|i: int| 0 <= i < w.len() implies !is_space(#[trigger] s[i]) by {
        assert(s[i] == w[i]);
    }
    assert(s[w.len() as int] == c);
    lemma_word_len_is(s, w.len() as int);
    assert(s.take(w.len() as int) =~= w);
    let t = seq![c] + rest;
    assert(s.skip(w.len() as int) =~= t);
    lemma_trim_front(seq![c], rest);
    assert(words(t) == words(rest));
}

// ---------------------------------------------------------------------------
// Replacing
// ---------------------------------------------------------------------------

/// A text that stands nowhere is not replaced.
pub proof fn lemma_nothing_replaced(s: Seq<char>, p: Seq<char>, by: Seq<char>)
    requires
        p.len() > 0,
        !s.contains(p[0]),
    ensures
        replace_all(s, p, by) == s,
{
    lemma_find(s, p, 0);
    if let Some(i) = find(s, p, 0) {
        assert(s.subrange(i, i + p.len())[0] == s[i]);
        assert(s.contains(s[i]));
    }
}

proof fn lemma_found_after(a: Seq<char>, p: Seq<char>, b: Seq<char>)
    requires
        p.len() > 0,
        !a.contains(p[0]),
    ensures
        find(a + p + b, p, 0) == Some(a.len() as int),
{
    let s = a + p + b;
    let n = a.len() as int;
    assert(stands_at(s, p, n)) by {
        assert(s.subrange(n, n + p.len()) =~= p);
    }
    assert forall|i: int| 0 <= i < n implies !stands_at(s, p, i) by {
        if stands_at(s, p, i) {
            assert(s.subrange(i, i + p.len())[0] == s[i]);
            assert(s[i] == a[i]);
            assert(a.contains(a[i]));
        }
    }
    lemma_find_is(s, p, 0, n);
}

/// The first place at which a text stands is the one that is found.
pub proof fn lemma_find_is(s: Seq<char>, p: Seq<char>, from: int, n: int)
    requires
        0 <= from <= n,
        stands_at(s, p, n),
        forall|i: int| from <= i < n ==> !stands_at(s, p, i),
    ensures
        find(s, p, from) == Some(n),
    decreases n - from,
{
    if from < n {
        assert(!stands_at(s, p, from));
        lemma_find_is(s, p, from + 1, n);
    }
}

/// A text that stands in another one, after something that lacks its first
/// character, is replaced there.
pub proof fn lemma_first_replaced(a: Seq<char>, p: Seq<char>, b: Seq<char>, by: Seq<char>)
    requires
        p.len() > 0,
        !a.contains(p[0]),
    ensures
        replace_all(a + p + b, p, by) == a + by + replace_all(b, p, by),
{
    let s = a + p + b;
    let n = a.len() as int;
    lemma_found_after(a, p, b);
    assert(s.take(n) =~= a);
    assert(s.skip(n + p.len()) =~= b);
    assert(replace_all(s, p, by) == s.take(n) + by + replace_all(s.skip(n + p.len()), p, by));
}

} // verus!
