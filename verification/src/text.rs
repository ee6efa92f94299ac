//! Text as sequences of characters: the operations on strings that the rest of
//! the library is written with, each tied to a definition on `Seq<char>`.

use vstd::prelude::*;

verus! {

/// `String::push` appends one character to the end of the string.
pub assume_specification[ String::push ](s: &mut String, c: char)
    ensures
        final(s)@ == old(s)@.push(c),
;

/// `str::eq` tells whether two strings hold the same characters.
pub assume_specification[ <str as PartialEq>::eq ](s: &str, other: &str) -> (res: bool)
    ensures
        res == (s@ == other@),
;

// ---------------------------------------------------------------------------
// Characters
// ---------------------------------------------------------------------------

/// The characters with the Unicode `White_Space` property.
pub open spec fn is_space(c: char) -> bool {
    let u = c as u32;
    ||| 9 <= u <= 13
    ||| u == 0x20
    ||| u == 0x85
    ||| u == 0xa0
    ||| u == 0x1680
    ||| 0x2000 <= u <= 0x200a
    ||| u == 0x2028
    ||| u == 0x2029
    ||| u == 0x202f
    ||| u == 0x205f
    ||| u == 0x3000
}

/// A set of characters that text is trimmed of.
#[derive(Clone, Copy)]
pub enum Class {
    /// White space.
    Space,
    /// Carriage return and line feed.
    LineEnd,
    /// One character.
    One(char),
}

impl Class {
    /// Whether the set holds `c`.
    pub open spec fn holds(self, c: char) -> bool {
        match self {
            Class::Space => is_space(c),
            Class::LineEnd => c == '\r' || c == '\n',
            Class::One(d) => c == d,
        }
    }

    /// Whether the set holds `c`.
    pub fn has(self, c: char) -> (r: bool)
        ensures
            r == self.holds(c),
    {
        match self {
            Class::Space => space(c),
            Class::LineEnd => c == '\r' || c == '\n',
            Class::One(d) => c == d,
        }
    }
}

/// Whether `c` is white space.
pub fn space(c: char) -> (r: bool)
    ensures
        r == is_space(c),
{
    let u: u32 = c as u32;
    (9 <= u && u <= 13) || u == 0x20 || u == 0x85 || u == 0xa0 || u == 0x1680 || (0x2000 <= u && u
        <= 0x200a) || u == 0x2028 || u == 0x2029 || u == 0x202f || u == 0x205f || u == 0x3000
}

/// The ASCII lower-case form of one character; other characters are kept.
pub open spec fn lower_char(c: char) -> char {
    if 'A' <= c <= 'Z' {
        ((c as u8) + 32) as u8 as char
    } else {
        c
    }
}

/// The ASCII upper-case form of one character; other characters are kept.
pub open spec fn upper_char(c: char) -> char {
    if 'a' <= c <= 'z' {
        ((c as u8) - 32) as u8 as char
    } else {
        c
    }
}

/// `s` with each ASCII letter in lower case.
pub open spec fn lower(s: Seq<char>) -> Seq<char> {
    s.map_values(|c: char| lower_char(c))
}

/// `s` with each ASCII letter in upper case.
pub open spec fn upper(s: Seq<char>) -> Seq<char> {
    s.map_values(|c: char| upper_char(c))
}

// ---------------------------------------------------------------------------
// Conversions
// ---------------------------------------------------------------------------

/// The characters of a string.
pub fn chars_of(s: &str) -> (r: Vec<char>)
    ensures
        r@ == s@,
{
    let mut out: Vec<char> = Vec::new();
    for c in it: s.chars()
        invariant
            out@ == it.seq().take(it.index()),
            it.seq() == s@,
    {
        out.push(c);
        assert(it.seq().take(it.index() + 1) =~= it.seq().take(it.index()).push(c));
    }
    assert(s@.take(s@.len() as int) =~= s@);
    out
}

/// The string of a run of characters.
pub fn string_of(s: &[char], from: usize, to: usize) -> (r: String)
    requires
        from <= to <= s@.len(),
    ensures
        r@ == s@.subrange(from as int, to as int),
{
    let mut out = String::new();
    let mut i: usize = from;
    while i < to
        invariant
            from <= i <= to <= s@.len(),
            out@ == s@.subrange(from as int, i as int),
        decreases to - i,
    {
        out.push(s[i]);
        assert(s@.subrange(from as int, i + 1) =~= s@.subrange(from as int, i as int).push(
            s@[i as int],
        ));
        i = i + 1;
    }
    out
}

/// A copy of a list of strings.
pub fn copy_strings(v: &Vec<String>) -> (r: Vec<String>)
    ensures
        r.deep_view() == v.deep_view(),
{
    let mut out: Vec<String> = Vec::new();
    let mut i: usize = 0;
    while i < v.len()
        invariant
            i <= v.len(),
            out.deep_view() == v.deep_view().take(i as int),
        decreases v.len() - i,
    {
        let ghost before = out.deep_view();
        out.push(v[i].clone());
        assert(out.deep_view() =~= before.push(v.deep_view()[i as int]));
        assert(v.deep_view().take(i + 1) =~= before.push(v.deep_view()[i as int]));
        i = i + 1;
    }
    assert(v.deep_view().take(v.len() as int) =~= v.deep_view());
    out
}

/// A copy of an optional string.
pub fn copy_option(o: &Option<String>) -> (r: Option<String>)
    ensures
        r.deep_view() == o.deep_view(),
{
    match o {
        Some(s) => Some(s.clone()),
        None => None,
    }
}

/// The first of two values that is there.
pub open spec fn over<T>(a: Option<T>, b: Option<T>) -> Option<T> {
    if a is Some {
        a
    } else {
        b
    }
}

/// A copy of the first of two optional strings that is there.
pub fn over_text(a: &Option<String>, b: &Option<String>) -> (r: Option<String>)
    ensures
        r.deep_view() == over(a.deep_view(), b.deep_view()),
{
    match a {
        Some(s) => Some(s.clone()),
        None => copy_option(b),
    }
}

/// Whether two optional strings are equal.
pub fn same_option(a: &Option<String>, b: &Option<String>) -> (r: bool)
    ensures
        r == (a.deep_view() == b.deep_view()),
{
    match (a, b) {
        (Some(x), Some(y)) => x.as_str().eq(y.as_str()),
        (None, None) => true,
        _ => false,
    }
}

// ---------------------------------------------------------------------------
// Trimming
// ---------------------------------------------------------------------------

/// `s` without its leading run of characters of `k`.
pub open spec fn trim_start(s: Seq<char>, k: Class) -> Seq<char>
    decreases s.len(),
{
    if s.len() > 0 && k.holds(s[0]) {
        trim_start(s.skip(1), k)
    } else {
        s
    }
}

/// `s` without its trailing run of characters of `k`.
pub open spec fn trim_end(s: Seq<char>, k: Class) -> Seq<char>
    decreases s.len(),
{
    if s.len() > 0 && k.holds(s.last()) {
        trim_end(s.drop_last(), k)
    } else {
        s
    }
}

/// `s` without white space at either end.
pub open spec fn trim(s: Seq<char>) -> Seq<char> {
    trim_end(trim_start(s, Class::Space), Class::Space)
}

/// The index of the first character that is not of `k`.
pub fn skip_class(v: &[char], from: usize, k: Class) -> (r: usize)
    requires
        from <= v@.len(),
    ensures
        from <= r <= v@.len(),
        trim_start(v@.skip(from as int), k) == v@.skip(r as int),
        r < v@.len() ==> !k.holds(v@[r as int]),
        forall|j: int| from <= j < r ==> k.holds(#[trigger] v@[j]),
{
    let mut i: usize = from;
    while i < v.len() && k.has(v[i])
        invariant
            from <= i <= v@.len(),
            trim_start(v@.skip(from as int), k) == trim_start(v@.skip(i as int), k),
            forall|j: int| from <= j < i ==> k.holds(#[trigger] v@[j]),
        decreases v@.len() - i,
    {
        assert(v@.skip(i as int).skip(1) =~= v@.skip(i + 1));
        i = i + 1;
    }
    i
}

/// The end of `v` once its trailing characters of `k` are left out.
pub fn drop_class(v: &[char], from: usize, k: Class) -> (r: usize)
    requires
        from <= v@.len(),
    ensures
        from <= r <= v@.len(),
        trim_end(v@.skip(from as int), k) == v@.subrange(from as int, r as int),
{
    let mut j: usize = v.len();
    assert(v@.skip(from as int) =~= v@.subrange(from as int, j as int));
    while j > from && k.has(v[j - 1])
        invariant
            from <= j <= v@.len(),
            trim_end(v@.skip(from as int), k) == trim_end(v@.subrange(from as int, j as int), k),
        decreases j,
    {
        assert(v@.subrange(from as int, j as int).drop_last() =~= v@.subrange(from as int, j - 1));
        assert(v@.subrange(from as int, j as int).last() == v@[j - 1]);
        j = j - 1;
    }
    assert(j > from ==> v@.subrange(from as int, j as int).last() == v@[j - 1]);
    j
}

/// `s` without its leading characters of `k`.
pub fn trim_start_of(s: &str, k: Class) -> (r: String)
    ensures
        r@ == trim_start(s@, k),
{
    let v = chars_of(s);
    assert(s@.skip(0) =~= s@);
    let i: usize = skip_class(v.as_slice(), 0, k);
    assert(s@.skip(i as int) =~= s@.subrange(i as int, s@.len() as int));
    string_of(v.as_slice(), i, v.len())
}

/// `s` without its trailing characters of `k`.
pub fn trim_end_of(s: &str, k: Class) -> (r: String)
    ensures
        r@ == trim_end(s@, k),
{
    let v = chars_of(s);
    assert(s@.skip(0) =~= s@);
    let j: usize = drop_class(v.as_slice(), 0, k);
    string_of(v.as_slice(), 0, j)
}

/// `s` without white space at either end.
pub fn trimmed(s: &str) -> (r: String)
    ensures
        r@ == trim(s@),
{
    let v = chars_of(s);
    assert(s@.skip(0) =~= s@);
    let i: usize = skip_class(v.as_slice(), 0, Class::Space);
    let j: usize = drop_class(v.as_slice(), i, Class::Space);
    string_of(v.as_slice(), i, j)
}

// ---------------------------------------------------------------------------
// Case
// ---------------------------------------------------------------------------

fn lowered_char(c: char) -> (r: char)
    ensures
        r == lower_char(c),
{
    if 'A' <= c && c <= 'Z' {
        ((c as u8) + 32) as char
    } else {
        c
    }
}

fn uppered_char(c: char) -> (r: char)
    ensures
        r == upper_char(c),
{
    if 'a' <= c && c <= 'z' {
        ((c as u8) - 32) as char
    } else {
        c
    }
}

/// `s` with each ASCII letter in lower case.
pub fn lowered(s: &str) -> (r: String)
    ensures
        r@ == lower(s@),
{
    let v = chars_of(s);
    let mut out = String::new();
    let mut i: usize = 0;
    while i < v.len()
        invariant
            i <= v.len(),
            out@ == lower(v@).take(i as int),
        decreases v.len() - i,
    {
        out.push(lowered_char(v[i]));
        assert(lower(v@).take(i + 1) =~= lower(v@).take(i as int).push(lower_char(v@[i as int])));
        i = i + 1;
    }
    assert(lower(v@).take(v@.len() as int) =~= lower(v@));
    out
}

/// `s` with each ASCII letter in upper case.
pub fn uppered(s: &str) -> (r: String)
    ensures
        r@ == upper(s@),
{
    let v = chars_of(s);
    let mut out = String::new();
    let mut i: usize = 0;
    while i < v.len()
        invariant
            i <= v.len(),
            out@ == upper(v@).take(i as int),
        decreases v.len() - i,
    {
        out.push(uppered_char(v[i]));
        assert(upper(v@).take(i + 1) =~= upper(v@).take(i as int).push(upper_char(v@[i as int])));
        i = i + 1;
    }
    assert(upper(v@).take(v@.len() as int) =~= upper(v@));
    out
}

/// Whether two strings are equal up to the case of ASCII letters.
pub open spec fn same_letters(a: Seq<char>, b: Seq<char>) -> bool {
    lower(a) == lower(b)
}

/// Text in lower case stays as it is.
pub proof fn lemma_lower_twice(s: Seq<char>)
    ensures
        lower(lower(s)) == lower(s),
{
    assert(lower(lower(s)) =~= lower(s));
}

/// Whether two strings are equal up to the case of ASCII letters.
pub fn eq_ignore_case(a: &str, b: &str) -> (r: bool)
    ensures
        r == same_letters(a@, b@),
{
    let x = lowered(a);
    let y = lowered(b);
    x.as_str().eq(y.as_str())
}

// ---------------------------------------------------------------------------
// Searching and splitting
// ---------------------------------------------------------------------------

/// The index of the first `c` in `s`, or the length of `s` if there is none.
pub open spec fn position(s: Seq<char>, c: char) -> int
    decreases s.len(),
{
    if s.len() == 0 || s[0] == c {
        0
    } else {
        1 + position(s.skip(1), c)
    }
}

/// The position of a character lies in the string and is the first of its kind.
pub proof fn lemma_position(s: Seq<char>, c: char)
    ensures
        0 <= position(s, c) <= s.len(),
        position(s, c) < s.len() ==> s[position(s, c)] == c,
        forall|j: int| 0 <= j < position(s, c) ==> s[j] != c,
    decreases s.len(),
{
    if s.len() > 0 && s[0] != c {
        lemma_position(s.skip(1), c);
        assert forall|j: int| 0 <= j < position(s, c) implies s[j] != c by {
            if j > 0 {
                assert(s[j] == s.skip(1)[j - 1]);
            }
        }
    }
}

/// An index that is the first of its kind is the position.
pub proof fn lemma_position_is(s: Seq<char>, c: char, i: int)
    requires
        0 <= i <= s.len(),
        i < s.len() ==> s[i] == c,
        forall|j: int| 0 <= j < i ==> s[j] != c,
    ensures
        position(s, c) == i,
    decreases s.len(),
{
    if s.len() > 0 && s[0] != c {
        lemma_position_is(s.skip(1), c, i - 1);
    }
}

/// The pieces of `s` between occurrences of `c`; at least one.
pub open spec fn split(s: Seq<char>, c: char) -> Seq<Seq<char>>
    decreases s.len(),
{
    let i = position(s, c);
    if 0 <= i < s.len() {
        seq![s.take(i)] + split(s.skip(i + 1), c)
    } else {
        seq![s]
    }
}

/// The pieces of two strings with a `c` between them are those of the one and
/// then those of the other.
pub proof fn lemma_split_joined(a: Seq<char>, c: char, b: Seq<char>)
    ensures
        split(a + seq![c] + b, c) == split(a, c) + split(b, c),
    decreases a.len(),
{
    let s = a + seq![c] + b;
    lemma_position(a, c);
    let i = position(a, c);
    if i < a.len() {
        assert(s[i] == c);
        lemma_position_is(s, c, i);
        let t = a.skip(i + 1);
        assert(s.take(i) =~= a.take(i));
        assert(s.skip(i + 1) =~= t + seq![c] + b);
        lemma_split_joined(t, c, b);
        assert(seq![a.take(i)] + (split(t, c) + split(b, c)) =~= seq![a.take(i)] + split(t, c)
            + split(b, c));
    } else {
        assert(s[a.len() as int] == c);
        lemma_position_is(s, c, a.len() as int);
        assert(s.take(a.len() as int) =~= a);
        assert(s.skip(a.len() as int + 1) =~= b);
    }
}

/// The index of the first `c` at or after `from`.
pub fn find_from(v: &[char], from: usize, c: char) -> (r: usize)
    requires
        from <= v@.len(),
    ensures
        from <= r <= v@.len(),
        r == from + position(v@.skip(from as int), c),
        r < v@.len() ==> v@[r as int] == c,
        forall|j: int| from <= j < r ==> v@[j] != c,
{
    let mut i: usize = from;
    while i < v.len() && v[i] != c
        invariant
            from <= i <= v@.len(),
            forall|j: int| from <= j < i ==> v@[j] != c,
        decreases v@.len() - i,
    {
        i = i + 1;
    }
    proof {
        let t = v@.skip(from as int);
        assert forall|j: int| 0 <= j < i - from implies t[j] != c by {
            assert(t[j] == v@[from + j]);
        }
        lemma_position_is(t, c, i - from);
    }
    i
}

/// The pieces of `s` between occurrences of `c`.
pub fn split_at_char(s: &str, c: char) -> (r: Vec<String>)
    ensures
        r.deep_view() == split(s@, c),
{
    let v = chars_of(s);
    let mut out: Vec<String> = Vec::new();
    let mut from: usize = 0;
    assert(v@.skip(0) =~= v@);
    assert(out.deep_view() + split(v@, c) =~= split(v@, c));
    loop
        invariant
            from <= v@.len(),
            out.deep_view() + split(v@.skip(from as int), c) == split(v@, c),
            v@ == s@,
        decreases v@.len() - from,
    {
        let to: usize = find_from(v.as_slice(), from, c);
        let ghost t = v@.skip(from as int);
        let ghost before = out.deep_view();
        let piece = string_of(v.as_slice(), from, to);
        out.push(piece);
        assert(t.take(to - from) =~= v@.subrange(from as int, to as int));
        assert(out.deep_view() =~= before.push(t.take(to - from)));
        if to == v.len() {
            assert(t.take(to - from) =~= t);
            assert(before + seq![t] =~= before.push(t));
            return out;
        }
        assert(t.skip(to - from + 1) =~= v@.skip(to + 1));
        assert(before + (seq![t.take(to - from)] + split(v@.skip(to + 1), c)) =~= before.push(
            t.take(to - from),
        ) + split(v@.skip(to + 1), c));
        from = to + 1;
    }
}

/// `s` parted at its first `c`, which is left out.
pub open spec fn split_once(s: Seq<char>, c: char) -> Option<(Seq<char>, Seq<char>)> {
    let i = position(s, c);
    if i < s.len() {
        Some((s.take(i), s.skip(i + 1)))
    } else {
        None
    }
}

/// Two strings with a `c` between them are parted into the two, where the first
/// has none.
pub proof fn lemma_parted(a: Seq<char>, c: char, b: Seq<char>)
    requires
        !a.contains(c),
    ensures
        split_once(a + seq![c] + b, c) == Some((a, b)),
{
    let s = a + seq![c] + b;
    assert forall|j: int| 0 <= j < a.len() implies s[j] != c by {
        assert(s[j] == a[j]);
    }
    lemma_position_is(s, c, a.len() as int);
    assert(s.take(a.len() as int) =~= a);
    assert(s.skip(a.len() as int + 1) =~= b);
}

/// `s` parted at its first `c`, which is left out.
pub fn split_once_at(s: &str, c: char) -> (r: Option<(String, String)>)
    ensures
        r.deep_view() == split_once(s@, c),
{
    let v = chars_of(s);
    assert(v@.skip(0) =~= v@);
    let i: usize = find_from(v.as_slice(), 0, c);
    if i < v.len() {
        let a = string_of(v.as_slice(), 0, i);
        let b = string_of(v.as_slice(), i + 1, v.len());
        assert(a@ =~= s@.take(i as int));
        assert(b@ =~= s@.skip(i + 1));
        Some((a, b))
    } else {
        None
    }
}

/// What stands before the first `c`, or all of `s`.
pub open spec fn before(s: Seq<char>, c: char) -> Seq<char> {
    s.take(position(s, c))
}

/// What stands before the first `c`, or all of `s`.
pub fn before_char(s: &str, c: char) -> (r: String)
    ensures
        r@ == before(s@, c),
{
    let v = chars_of(s);
    assert(v@.skip(0) =~= v@);
    let i: usize = find_from(v.as_slice(), 0, c);
    string_of(v.as_slice(), 0, i)
}

/// What stands after the first `c`, or nothing.
pub open spec fn after(s: Seq<char>, c: char) -> Seq<char> {
    match split_once(s, c) {
        Some(p) => p.1,
        None => Seq::empty(),
    }
}

/// What stands after the first `c`, or nothing.
pub fn after_char(s: &str, c: char) -> (r: String)
    ensures
        r@ == after(s@, c),
{
    match split_once_at(s, c) {
        Some(p) => p.1,
        None => String::new(),
    }
}

/// The index of the last `c` in `s`, or -1 if there is none.
pub open spec fn last_position(s: Seq<char>, c: char) -> int
    decreases s.len(),
{
    if s.len() == 0 {
        -1
    } else if s.last() == c {
        s.len() - 1
    } else {
        last_position(s.drop_last(), c)
    }
}

/// `s` parted at its last `c`, which is left out.
pub open spec fn rsplit_once(s: Seq<char>, c: char) -> Option<(Seq<char>, Seq<char>)> {
    let i = last_position(s, c);
    if i >= 0 {
        Some((s.take(i), s.skip(i + 1)))
    } else {
        None
    }
}

/// One past the index of the last `c` in `v`, or zero.
pub fn after_last(v: &[char], c: char) -> (r: usize)
    ensures
        r <= v@.len(),
        r == last_position(v@, c) + 1,
{
    let mut j: usize = v.len();
    assert(v@.take(j as int) =~= v@);
    while j > 0 && v[j - 1] != c
        invariant
            j <= v@.len(),
            last_position(v@, c) == last_position(v@.take(j as int), c),
        decreases j,
    {
        assert(v@.take(j as int).drop_last() =~= v@.take(j - 1));
        assert(v@.take(j as int).last() == v@[j - 1]);
        j = j - 1;
    }
    assert(j > 0 ==> v@.take(j as int).last() == v@[j - 1]);
    j
}

/// `s` parted at its last `c`, which is left out.
pub fn rsplit_once_at(s: &str, c: char) -> (r: Option<(String, String)>)
    ensures
        r.deep_view() == rsplit_once(s@, c),
{
    let v = chars_of(s);
    let j: usize = after_last(v.as_slice(), c);
    if j > 0 {
        let a = string_of(v.as_slice(), 0, j - 1);
        let b = string_of(v.as_slice(), j, v.len());
        assert(a@ =~= s@.take(j - 1));
        assert(b@ =~= s@.skip(j as int));
        Some((a, b))
    } else {
        None
    }
}

/// How many leading characters of `s` are not white space.
pub open spec fn word_len(s: Seq<char>) -> int
    decreases s.len(),
{
    if s.len() == 0 || is_space(s[0]) {
        0
    } else {
        1 + word_len(s.skip(1))
    }
}

/// A word is no longer than the text it starts.
pub proof fn lemma_word_len(s: Seq<char>)
    ensures
        0 <= word_len(s) <= s.len(),
        s.len() > 0 && !is_space(s[0]) ==> word_len(s) > 0,
    decreases s.len(),
{
    if s.len() > 0 && !is_space(s[0]) {
        lemma_word_len(s.skip(1));
    }
}

/// Trimming the front leaves no more than there was, and no space in front.
pub proof fn lemma_trim_start(s: Seq<char>, k: Class)
    ensures
        trim_start(s, k).len() <= s.len(),
        trim_start(s, k).len() > 0 ==> !k.holds(trim_start(s, k)[0]),
    decreases s.len(),
{
    if s.len() > 0 && k.holds(s[0]) {
        lemma_trim_start(s.skip(1), k);
    }
}

/// The words of `s`, which white space parts.
pub open spec fn words(s: Seq<char>) -> Seq<Seq<char>>
    decreases s.len(),
{
    let t = trim_start(s, Class::Space);
    if t.len() == 0 {
        Seq::empty()
    } else {
        let n = word_len(t);
        proof {
            lemma_trim_start(s, Class::Space);
            lemma_word_len(t);
        }
        if 0 < n <= t.len() {
            seq![t.take(n)] + words(t.skip(n))
        } else {
            Seq::empty()
        }
    }
}

/// The end of the word that starts at `from`.
pub fn word_end(v: &[char], from: usize) -> (r: usize)
    requires
        from <= v@.len(),
    ensures
        from <= r <= v@.len(),
        r == from + word_len(v@.skip(from as int)),
        r < v@.len() ==> is_space(v@[r as int]),
        forall|j: int| from <= j < r ==> !is_space(#[trigger] v@[j]),
{
    let mut i: usize = from;
    while i < v.len() && !space(v[i])
        invariant
            from <= i <= v@.len(),
            word_len(v@.skip(from as int)) == (i - from) + word_len(v@.skip(i as int)),
            forall|j: int| from <= j < i ==> !is_space(#[trigger] v@[j]),
        decreases v@.len() - i,
    {
        assert(v@.skip(i as int).skip(1) =~= v@.skip(i + 1));
        i = i + 1;
    }
    i
}

/// The words of `s`, which white space parts.
pub fn split_words(s: &str) -> (r: Vec<String>)
    ensures
        r.deep_view() == words(s@),
{
    let v = chars_of(s);
    let mut out: Vec<String> = Vec::new();
    let mut from: usize = 0;
    assert(v@.skip(0) =~= v@);
    assert(out.deep_view() + words(v@) =~= words(v@));
    loop
        invariant
            from <= v@.len(),
            out.deep_view() + words(v@.skip(from as int)) == words(v@),
            v@ == s@,
        decreases v@.len() - from,
    {
        let ghost t = trim_start(v@.skip(from as int), Class::Space);
        let ghost before = out.deep_view();
        let i: usize = skip_class(v.as_slice(), from, Class::Space);
        if i == v.len() {
            assert(before + Seq::<Seq<char>>::empty() =~= before);
            return out;
        }
        let j: usize = word_end(v.as_slice(), i);
        proof {
            lemma_word_len(t);
        }
        out.push(string_of(v.as_slice(), i, j));
        assert(t.take(j - i) =~= v@.subrange(i as int, j as int));
        assert(out.deep_view() =~= before.push(t.take(j - i)));
        assert(t.skip(j - i) =~= v@.skip(j as int));
        assert(before + (seq![t.take(j - i)] + words(v@.skip(j as int))) =~= before.push(
            t.take(j - i),
        ) + words(v@.skip(j as int)));
        from = j;
    }
}

/// `s` without one trailing carriage return.
pub open spec fn without_return(s: Seq<char>) -> Seq<char> {
    if s.len() > 0 && s.last() == '\r' {
        s.drop_last()
    } else {
        s
    }
}

/// The lines of `s`: a line ends at a line feed, which is left out together
/// with one carriage return before it; the last line need not end.
pub open spec fn lines(s: Seq<char>) -> Seq<Seq<char>>
    decreases s.len(),
{
    if s.len() == 0 {
        Seq::empty()
    } else {
        let i = position(s, '\n');
        if 0 <= i < s.len() {
            seq![without_return(s.take(i))] + lines(s.skip(i + 1))
        } else {
            seq![s]
        }
    }
}

/// The lines of `s`.
pub fn split_lines(s: &str) -> (r: Vec<String>)
    ensures
        r.deep_view() == lines(s@),
{
    let v = chars_of(s);
    let mut out: Vec<String> = Vec::new();
    let mut from: usize = 0;
    assert(v@.skip(0) =~= v@);
    assert(out.deep_view() + lines(v@) =~= lines(v@));
    while from < v.len()
        invariant
            from <= v@.len(),
            out.deep_view() + lines(v@.skip(from as int)) == lines(v@),
        decreases v@.len() - from,
    {
        let to: usize = find_from(v.as_slice(), from, '\n');
        let ghost t = v@.skip(from as int);
        let ghost before = out.deep_view();
        if to == v.len() {
            out.push(string_of(v.as_slice(), from, to));
            assert(v@.subrange(from as int, to as int) =~= t);
            assert(out.deep_view() =~= before + lines(t));
            assert(v@.skip(to as int) =~= Seq::<char>::empty());
            assert(out.deep_view() + Seq::<Seq<char>>::empty() =~= out.deep_view());
            from = to;
        } else {
            assert(t.take(to - from) =~= v@.subrange(from as int, to as int));
            let end: usize = if to > from && v[to - 1] == '\r' {
                to - 1
            } else {
                to
            };
            out.push(string_of(v.as_slice(), from, end));
            assert(to > from ==> t.take(to - from).last() == v@[to - 1]);
            assert(v@.subrange(from as int, end as int) =~= without_return(t.take(to - from)));
            assert(out.deep_view() =~= before.push(without_return(t.take(to - from))));
            assert(t.skip(to - from + 1) =~= v@.skip(to + 1));
            assert(before + (seq![without_return(t.take(to - from))] + lines(v@.skip(to + 1)))
                =~= before.push(without_return(t.take(to - from))) + lines(v@.skip(to + 1)));
            from = to + 1;
        }
    }
    assert(v@.skip(v@.len() as int) =~= Seq::<char>::empty());
    assert(out.deep_view() + Seq::<Seq<char>>::empty() =~= out.deep_view());
    out
}

/// Whether `p` stands in `s` at index `i`.
pub open spec fn stands_at(s: Seq<char>, p: Seq<char>, i: int) -> bool {
    &&& 0 <= i
    &&& i + p.len() <= s.len()
    &&& s.subrange(i, i + p.len()) == p
}

/// Whether `p` stands anywhere in `s`.
pub open spec fn contains(s: Seq<char>, p: Seq<char>) -> bool {
    exists|i: int| stands_at(s, p, i)
}

/// The first index at which `p` stands in `s`, at or after `from`.
pub open spec fn find(s: Seq<char>, p: Seq<char>, from: int) -> Option<int>
    decreases s.len() + 1 - from,
{
    if from + p.len() > s.len() {
        None
    } else if stands_at(s, p, from) {
        Some(from)
    } else {
        find(s, p, from + 1)
    }
}

/// What `find` returns is an occurrence, and the first one.
pub proof fn lemma_find(s: Seq<char>, p: Seq<char>, from: int)
    requires
        0 <= from,
    ensures
        match find(s, p, from) {
            Some(i) => from <= i && stands_at(s, p, i) && forall|j: int|
                from <= j < i ==> !stands_at(s, p, j),
            None => forall|j: int| from <= j ==> !stands_at(s, p, j),
        },
    decreases s.len() + 1 - from,
{
    if from + p.len() <= s.len() && !stands_at(s, p, from) {
        lemma_find(s, p, from + 1);
    }
}

/// Whether `p` stands in `v` at index `i`.
pub fn matches_at(v: &[char], p: &[char], i: usize) -> (r: bool)
    requires
        i <= v@.len(),
    ensures
        r == stands_at(v@, p@, i as int),
{
    let n: usize = v.len();
    if n - i < p.len() {
        return false;
    }
    let mut j: usize = 0;
    while j < p.len()
        invariant
            j <= p@.len(),
            i + p@.len() <= v@.len(),
            v@.len() == n,
            forall|k: int| 0 <= k < j ==> v@.subrange(i as int, i + p@.len())[k] == #[trigger] p@[k],
        decreases p@.len() - j,
    {
        if v[i + j] != p[j] {
            assert(v@.subrange(i as int, i + p@.len())[j as int] == v@[i + j]);
            return false;
        }
        j = j + 1;
    }
    assert(v@.subrange(i as int, i + p@.len()) =~= p@);
    true
}

/// The first index at or after `from` at which `p` stands in `v`.
pub fn find_in(v: &[char], p: &[char], from: usize) -> (r: Option<usize>)
    requires
        from <= v@.len(),
    ensures
        match r {
            Some(i) => find(v@, p@, from as int) == Some(i as int) && from <= i && i + p@.len()
                <= v@.len(),
            None => find(v@, p@, from as int) is None,
        },
{
    let mut i: usize = from;
    while i <= v.len() && v.len() - i >= p.len()
        invariant
            from <= i,
            i <= v@.len() + 1,
            find(v@, p@, from as int) == find(v@, p@, i as int),
        decreases v@.len() + 1 - i,
    {
        if matches_at(v, p, i) {
            return Some(i);
        }
        if i == v.len() {
            assert(find(v@, p@, i + 1) is None);
            return None;
        }
        i = i + 1;
    }
    None
}

/// Whether `p` stands anywhere in `s`.
pub fn contains_str(s: &str, p: &str) -> (r: bool)
    ensures
        r == contains(s@, p@),
{
    let v = chars_of(s);
    let w = chars_of(p);
    let found = find_in(v.as_slice(), w.as_slice(), 0);
    proof {
        lemma_find(s@, p@, 0);
    }
    found.is_some()
}

/// Whether `c` occurs in `s`.
pub fn contains_char(s: &str, c: char) -> (r: bool)
    ensures
        r == s@.contains(c),
{
    let v = chars_of(s);
    let i: usize = find_from(v.as_slice(), 0, c);
    if i < v.len() {
        assert(s@[i as int] == c);
        true
    } else {
        false
    }
}

/// Whether `s` starts with `p`.
pub open spec fn starts_with(s: Seq<char>, p: Seq<char>) -> bool {
    stands_at(s, p, 0)
}

/// Whether `s` ends with `p`.
pub open spec fn ends_with(s: Seq<char>, p: Seq<char>) -> bool {
    stands_at(s, p, s.len() - p.len())
}

/// Whether `s` starts with `p`.
pub fn has_prefix(s: &str, p: &str) -> (r: bool)
    ensures
        r == starts_with(s@, p@),
{
    let v = chars_of(s);
    let w = chars_of(p);
    matches_at(v.as_slice(), w.as_slice(), 0)
}

/// Whether `s` ends with `p`.
pub fn has_suffix(s: &str, p: &str) -> (r: bool)
    ensures
        r == ends_with(s@, p@),
{
    let v = chars_of(s);
    let w = chars_of(p);
    if v.len() < w.len() {
        false
    } else {
        matches_at(v.as_slice(), w.as_slice(), v.len() - w.len())
    }
}

/// `s` without the leading `p`, if it has one.
pub open spec fn strip_prefix(s: Seq<char>, p: Seq<char>) -> Option<Seq<char>> {
    if starts_with(s, p) {
        Some(s.skip(p.len() as int))
    } else {
        None
    }
}

/// `s` without the leading `p`, if it has one.
pub fn without_prefix(s: &str, p: &str) -> (r: Option<String>)
    ensures
        r.deep_view() == strip_prefix(s@, p@),
{
    let v = chars_of(s);
    let w = chars_of(p);
    if matches_at(v.as_slice(), w.as_slice(), 0) {
        let t = string_of(v.as_slice(), w.len(), v.len());
        assert(t@ =~= s@.skip(p@.len() as int));
        Some(t)
    } else {
        None
    }
}

/// `s` without the trailing `p`, if it has one.
pub open spec fn strip_suffix(s: Seq<char>, p: Seq<char>) -> Option<Seq<char>> {
    if ends_with(s, p) {
        Some(s.take(s.len() - p.len()))
    } else {
        None
    }
}

/// `s` without the trailing `p`, if it has one.
pub fn without_suffix(s: &str, p: &str) -> (r: Option<String>)
    ensures
        r.deep_view() == strip_suffix(s@, p@),
{
    let v = chars_of(s);
    let w = chars_of(p);
    if v.len() >= w.len() && matches_at(v.as_slice(), w.as_slice(), v.len() - w.len()) {
        let t = string_of(v.as_slice(), 0, v.len() - w.len());
        Some(t)
    } else {
        None
    }
}

// ---------------------------------------------------------------------------
// Building
// ---------------------------------------------------------------------------

/// `s` with each `c` replaced by `by`.
pub open spec fn replace(s: Seq<char>, c: char, by: Seq<char>) -> Seq<char>
    decreases s.len(),
{
    if s.len() == 0 {
        s
    } else {
        replace(s.drop_last(), c, by) + (if s.last() == c {
            by
        } else {
            seq![s.last()]
        })
    }
}

/// `s` with each `c` replaced by `by`.
pub fn replaced(s: &str, c: char, by: &str) -> (r: String)
    ensures
        r@ == replace(s@, c, by@),
{
    let v = chars_of(s);
    let mut out = String::new();
    let mut i: usize = 0;
    assert(v@.take(0) =~= Seq::<char>::empty());
    while i < v.len()
        invariant
            i <= v@.len(),
            out@ == replace(v@.take(i as int), c, by@),
        decreases v@.len() - i,
    {
        assert(v@.take(i + 1).drop_last() =~= v@.take(i as int));
        if v[i] == c {
            out.append(by);
        } else {
            let ghost o = out@;
            out.push(v[i]);
            assert(out@ =~= o + seq![v@[i as int]]);
        }
        i = i + 1;
    }
    assert(v@.take(v@.len() as int) =~= v@);
    out
}

/// `s` with each `p` replaced by `by`, from the left and without overlap.
pub open spec fn replace_all(s: Seq<char>, p: Seq<char>, by: Seq<char>) -> Seq<char>
    decreases s.len(),
{
    match find(s, p, 0) {
        Some(i) => if p.len() > 0 && 0 <= i && i + p.len() <= s.len() {
            s.take(i) + by + replace_all(s.skip(i + p.len()), p, by)
        } else {
            s
        },
        None => s,
    }
}

/// Searching from an index is searching in the rest.
pub proof fn lemma_find_skip(s: Seq<char>, p: Seq<char>, from: int, k: int)
    requires
        0 <= from,
        0 <= k,
        from + k <= s.len(),
    ensures
        find(s, p, from + k) == (match find(s.skip(from), p, k) {
            Some(i) => Some(from + i),
            None => None,
        }),
    decreases s.len() + 1 - from - k,
{
    let t = s.skip(from);
    if from + k + p.len() <= s.len() {
        assert(s.subrange(from + k, from + k + p.len()) =~= t.subrange(k, k + p.len()));
        if !stands_at(s, p, from + k) {
            if from + k + 1 <= s.len() {
                lemma_find_skip(s, p, from, k + 1);
            } else {
                assert(find(s, p, from + k + 1) is None);
                assert(find(t, p, k + 1) is None);
            }
        }
    }
}

/// `s` with each `p` replaced by `by`, from the left and without overlap.
pub fn replaced_all(s: &str, p: &str, by: &str) -> (r: String)
    requires
        p@.len() > 0,
    ensures
        r@ == replace_all(s@, p@, by@),
{
    let v = chars_of(s);
    let w = chars_of(p);
    let n: usize = v.len();
    let m: usize = w.len();
    let mut out = String::new();
    let mut from: usize = 0;
    assert(v@.skip(0) =~= v@);
    assert(out@ + replace_all(v@, p@, by@) =~= replace_all(v@, p@, by@));
    loop
        invariant
            from <= n,
            n == v@.len(),
            m == w@.len(),
            m > 0,
            v@ == s@,
            w@ == p@,
            out@ + replace_all(v@.skip(from as int), p@, by@) == replace_all(v@, p@, by@),
        decreases n - from,
    {
        let ghost t = v@.skip(from as int);
        let ghost done = out@;
        proof {
            lemma_find_skip(v@, p@, from as int, 0);
        }
        match find_in(v.as_slice(), w.as_slice(), from) {
            Some(i) => {
                let piece = string_of(v.as_slice(), from, i);
                out.append(piece.as_str());
                out.append(by);
                assert(t.take(i - from) =~= v@.subrange(from as int, i as int));
                assert(t.skip(i - from + m) =~= v@.skip(i + m));
                assert(done + (t.take(i - from) + by@ + replace_all(v@.skip(i + m), p@, by@))
                    =~= done + t.take(i - from) + by@ + replace_all(v@.skip(i + m), p@, by@));
                from = i + m;
            },
            None => {
                let piece = string_of(v.as_slice(), from, n);
                assert(t =~= v@.subrange(from as int, n as int));
                out.append(piece.as_str());
                return out;
            },
        }
    }
}

/// The pieces in a row, with `sep` between each two.
pub open spec fn join(pieces: Seq<Seq<char>>, sep: Seq<char>) -> Seq<char>
    decreases pieces.len(),
{
    if pieces.len() == 0 {
        Seq::empty()
    } else if pieces.len() == 1 {
        pieces[0]
    } else {
        join(pieces.drop_last(), sep) + sep + pieces.last()
    }
}

/// The pieces `from..to` in a row, with `sep` between each two.
pub fn joined(pieces: &Vec<String>, from: usize, to: usize, sep: &str) -> (r: String)
    requires
        from <= to <= pieces.len(),
    ensures
        r@ == join(pieces.deep_view().subrange(from as int, to as int), sep@),
{
    let mut out = String::new();
    let mut i: usize = from;
    let ghost all = pieces.deep_view();
    while i < to
        invariant
            from <= i <= to <= pieces.len(),
            all == pieces.deep_view(),
            out@ == join(all.subrange(from as int, i as int), sep@),
        decreases to - i,
    {
        let ghost part = all.subrange(from as int, i + 1);
        assert(part.drop_last() =~= all.subrange(from as int, i as int));
        assert(part.last() == pieces@[i as int]@);
        if i == from {
            out = pieces[i].clone();
        } else {
            out.append(sep);
            out.append(pieces[i].as_str());
        }
        i = i + 1;
    }
    out
}

// ---------------------------------------------------------------------------
// Order
// ---------------------------------------------------------------------------

/// Whether `a` comes before `b` in lexicographic order of code points.
pub open spec fn less(a: Seq<char>, b: Seq<char>) -> bool
    decreases b.len(),
{
    if b.len() == 0 {
        false
    } else if a.len() == 0 {
        true
    } else if a[0] == b[0] {
        less(a.skip(1), b.skip(1))
    } else {
        a[0] < b[0]
    }
}

/// No text comes before itself.
pub proof fn lemma_less_irreflexive(a: Seq<char>)
    ensures
        !less(a, a),
    decreases a.len(),
{
    if a.len() > 0 {
        lemma_less_irreflexive(a.skip(1));
    }
}

/// The order is transitive.
pub proof fn lemma_less_transitive(a: Seq<char>, b: Seq<char>, c: Seq<char>)
    requires
        less(a, b),
        less(b, c),
    ensures
        less(a, c),
    decreases c.len(),
{
    if a.len() > 0 && b.len() > 0 && c.len() > 0 && a[0] == b[0] && b[0] == c[0] {
        lemma_less_transitive(a.skip(1), b.skip(1), c.skip(1));
    }
}

/// Of two different texts one comes before the other.
pub proof fn lemma_less_total(a: Seq<char>, b: Seq<char>)
    ensures
        less(a, b) || less(b, a) || a == b,
    decreases a.len(),
{
    if a.len() > 0 && b.len() > 0 && a[0] == b[0] {
        lemma_less_total(a.skip(1), b.skip(1));
        if a.skip(1) == b.skip(1) {
            assert(a =~= seq![a[0]] + a.skip(1));
            assert(b =~= seq![b[0]] + b.skip(1));
        }
    } else if a.len() == 0 && b.len() == 0 {
        assert(a =~= b);
    }
}

/// Whether `a` comes before `b` in lexicographic order of code points.
pub fn comes_before(a: &str, b: &str) -> (r: bool)
    ensures
        r == less(a@, b@),
{
    let v = chars_of(a);
    let w = chars_of(b);
    let mut i: usize = 0;
    assert(v@.skip(0) =~= v@ && w@.skip(0) =~= w@);
    while i < v.len() && i < w.len()
        invariant
            i <= v@.len(),
            i <= w@.len(),
            less(v@, w@) == less(v@.skip(i as int), w@.skip(i as int)),
            v@ == a@,
            w@ == b@,
        decreases v@.len() - i,
    {
        if v[i] != w[i] {
            return v[i] < w[i];
        }
        assert(v@.skip(i as int).skip(1) =~= v@.skip(i + 1));
        assert(w@.skip(i as int).skip(1) =~= w@.skip(i + 1));
        i = i + 1;
    }
    i < w.len()
}

} // verus!
