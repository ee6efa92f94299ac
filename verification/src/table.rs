//! A map from text to values, kept in the order of its keys.

use vstd::prelude::*;

use crate::text::{comes_before, lemma_less_irreflexive, lemma_less_total, lemma_less_transitive, less};

verus! {

/// Whether the keys of a list of pairs strictly ascend.
pub open spec fn ascending<W>(p: Seq<(Seq<char>, W)>) -> bool {
    forall|i: int, j: int| 0 <= i < j < p.len() ==> less(#[trigger] p[i].0, #[trigger] p[j].0)
}

/// The map that a list of pairs describes; of two pairs with one key the later
/// counts.
pub open spec fn to_map<W>(p: Seq<(Seq<char>, W)>) -> Map<Seq<char>, W>
    decreases p.len(),
{
    if p.len() == 0 {
        Map::empty()
    } else {
        to_map(p.drop_last()).insert(p.last().0, p.last().1)
    }
}

/// The map of a list has the keys of the list.
pub proof fn lemma_to_map_keys<W>(p: Seq<(Seq<char>, W)>, k: Seq<char>)
    ensures
        to_map(p).contains_key(k) <==> exists|i: int| 0 <= i < p.len() && #[trigger] p[i].0 == k,
    decreases p.len(),
{
    if p.len() > 0 {
        let q = p.drop_last();
        lemma_to_map_keys(q, k);
        if to_map(p).contains_key(k) {
            if p.last().0 == k {
                assert(p[p.len() - 1].0 == k);
            } else {
                let i = choose|i: int| 0 <= i < q.len() && #[trigger] q[i].0 == k;
                assert(p[i].0 == k);
            }
        }
        if exists|i: int| 0 <= i < p.len() && #[trigger] p[i].0 == k {
            let i = choose|i: int| 0 <= i < p.len() && #[trigger] p[i].0 == k;
            if i < p.len() - 1 {
                assert(q[i].0 == k);
            }
        }
    }
}

/// The map of an ascending list has the values of the list.
pub proof fn lemma_to_map_values<W>(p: Seq<(Seq<char>, W)>, i: int)
    requires
        ascending(p),
        0 <= i < p.len(),
    ensures
        to_map(p).contains_key(p[i].0),
        to_map(p)[p[i].0] == p[i].1,
    decreases p.len(),
{
    let q = p.drop_last();
    if i < p.len() - 1 {
        assert(ascending(q)) by {
            assert forall|a: int, b: int| 0 <= a < b < q.len() implies less(
                #[trigger] q[a].0,
                #[trigger] q[b].0,
            ) by {
                assert(less(p[a].0, p[b].0));
            }
        }
        lemma_to_map_values(q, i);
        assert(q[i] == p[i]);
        lemma_less_irreflexive(p[i].0);
        assert(less(p[i].0, p[p.len() - 1].0));
    }
}

/// The map of an ascending list determines the list.
pub proof fn lemma_ascending_keys_differ<W>(p: Seq<(Seq<char>, W)>, i: int, j: int)
    requires
        ascending(p),
        0 <= i < p.len(),
        0 <= j < p.len(),
        p[i].0 == p[j].0,
    ensures
        i == j,
{
    lemma_less_irreflexive(p[i].0);
    if i < j {
        assert(less(p[i].0, p[j].0));
    } else if j < i {
        assert(less(p[j].0, p[i].0));
    }
}

/// Two ascending lists of one map are the same list.
pub proof fn lemma_one_list<W>(p: Seq<(Seq<char>, W)>, q: Seq<(Seq<char>, W)>)
    requires
        ascending(p),
        ascending(q),
        to_map(p) == to_map(q),
    ensures
        p == q,
    decreases p.len(),
{
    if p.len() == 0 {
        if q.len() > 0 {
            lemma_to_map_values(q, 0);
        }
        assert(p =~= q);
    } else {
        lemma_to_map_values(p, p.len() - 1);
        lemma_to_map_keys(q, p.last().0);
        let j = choose|j: int| 0 <= j < q.len() && #[trigger] q[j].0 == p.last().0;
        lemma_to_map_values(q, q.len() - 1);
        lemma_to_map_keys(p, q.last().0);
        let i = choose|i: int| 0 <= i < p.len() && #[trigger] p[i].0 == q.last().0;
        if j < q.len() - 1 {
            assert(less(q[j].0, q[q.len() - 1].0));
            if i < p.len() - 1 {
                assert(less(p[i].0, p[p.len() - 1].0));
                lemma_less_transitive(p.last().0, q.last().0, p.last().0);
            }
            lemma_less_irreflexive(p.last().0);
        }
        assert(p.last().0 == q.last().0);
        let k = p.last().0;
        lemma_remove_old(p, p.len() - 1);
        lemma_remove_old(q, q.len() - 1);
        assert(p.remove(p.len() - 1) =~= p.drop_last());
        assert(q.remove(q.len() - 1) =~= q.drop_last());
        lemma_one_list(p.drop_last(), q.drop_last());
        assert(p =~= p.drop_last().push(p.last()));
        assert(q =~= q.drop_last().push(q.last()));
    }
}

/// The entries of a map, in the order of their keys.
pub open spec fn pairs_of<W>(m: Map<Seq<char>, W>) -> Seq<(Seq<char>, W)> {
    choose|p: Seq<(Seq<char>, W)>| ascending(p) && #[trigger] to_map(p) == m
}

/// An ascending list is the list of its map.
pub proof fn lemma_pairs_of<W>(p: Seq<(Seq<char>, W)>)
    requires
        ascending(p),
    ensures
        pairs_of(to_map(p)) == p,
{
    lemma_one_list(pairs_of(to_map(p)), p);
}

/// Whether a map has a list of its entries, as the map of every table has.
pub open spec fn listed<W>(m: Map<Seq<char>, W>) -> bool {
    ascending(pairs_of(m)) && to_map(pairs_of(m)) == m
}

/// Where a key stands or would stand in an ascending list, from a place on.
spec fn place_from<W>(p: Seq<(Seq<char>, W)>, i: int, k: Seq<char>) -> int
    decreases p.len() - i,
{
    if i < 0 || i >= p.len() || !less(p[i].0, k) {
        i
    } else {
        place_from(p, i + 1, k)
    }
}

proof fn lemma_place<W>(p: Seq<(Seq<char>, W)>, i: int, k: Seq<char>)
    requires
        0 <= i <= p.len(),
        forall|j: int| 0 <= j < i ==> less(#[trigger] p[j].0, k),
    ensures
        i <= place_from(p, i, k) <= p.len(),
        forall|j: int| 0 <= j < place_from(p, i, k) ==> less(#[trigger] p[j].0, k),
        place_from(p, i, k) < p.len() ==> !less(p[place_from(p, i, k)].0, k),
    decreases p.len() - i,
{
    if i < p.len() && less(p[i].0, k) {
        lemma_place(p, i + 1, k);
    }
}

/// A map with a list keeps one when a key is put in.
pub proof fn lemma_listed_insert<W>(m: Map<Seq<char>, W>, k: Seq<char>, w: W)
    requires
        listed(m),
    ensures
        listed(m.insert(k, w)),
{
    let p = pairs_of(m);
    lemma_place(p, 0, k);
    let at = place_from(p, 0, k);
    if at < p.len() {
        lemma_less_total(p[at].0, k);
    }
    if at < p.len() && p[at].0 == k {
        lemma_insert_old(p, at, k, w);
        lemma_pairs_of(p.update(at, (k, w)));
    } else {
        lemma_insert_new(p, at, k, w);
        lemma_pairs_of(p.insert(at, (k, w)));
    }
}

/// A map with a list keeps one when a key is taken out.
pub proof fn lemma_listed_remove<W>(m: Map<Seq<char>, W>, k: Seq<char>)
    requires
        listed(m),
    ensures
        listed(m.remove(k)),
{
    let p = pairs_of(m);
    lemma_to_map_keys(p, k);
    if m.contains_key(k) {
        let at = choose|at: int| 0 <= at < p.len() && #[trigger] p[at].0 == k;
        lemma_remove_old(p, at);
        lemma_pairs_of(p.remove(at));
    } else {
        assert(m.remove(k) =~= m);
    }
}

/// Whether two maps say the same of a key.
spec fn agree<W>(a: Map<Seq<char>, W>, b: Map<Seq<char>, W>, k: Seq<char>) -> bool {
    a.contains_key(k) == b.contains_key(k) && (b.contains_key(k) ==> a[k] == b[k])
}

/// Maps that say the same of every key are equal.
proof fn lemma_agree<W>(a: Map<Seq<char>, W>, b: Map<Seq<char>, W>)
    requires
        forall|k: Seq<char>| #[trigger] agree(a, b, k),
    ensures
        a == b,
{
    assert forall|k: Seq<char>| #[trigger] a.contains_key(k) == b.contains_key(k) by {
        assert(agree(a, b, k));
    }
    assert forall|k: Seq<char>| a.contains_key(k) implies #[trigger] a[k] == b[k] by {
        assert(agree(a, b, k));
    }
    assert(a =~= b);
}

/// Putting a new key between the smaller and the greater ones.
proof fn lemma_insert_new<W>(p: Seq<(Seq<char>, W)>, at: int, k: Seq<char>, w: W)
    requires
        ascending(p),
        0 <= at <= p.len(),
        forall|j: int| 0 <= j < at ==> less(#[trigger] p[j].0, k),
        at < p.len() ==> less(k, p[at].0),
    ensures
        ascending(p.insert(at, (k, w))),
        to_map(p.insert(at, (k, w))) == to_map(p).insert(k, w),
{
    let q = p.insert(at, (k, w));
    assert forall|j: int| at <= j < p.len() implies less(k, #[trigger] p[j].0) by {
        if j > at {
            assert(less(p[at].0, p[j].0));
            lemma_less_transitive(k, p[at].0, p[j].0);
        }
    }
    assert forall|a: int, b: int| 0 <= a < b < q.len() implies less(
        #[trigger] q[a].0,
        #[trigger] q[b].0,
    ) by {
        if a < at {
            assert(q[a] == p[a]);
            if b < at {
                assert(q[b] == p[b]);
            } else if b > at {
                assert(q[b] == p[b - 1]);
                assert(less(p[a].0, p[b - 1].0));
            }
        } else {
            assert(q[b] == p[b - 1]);
            if a > at {
                assert(q[a] == p[a - 1]);
                assert(less(p[a - 1].0, p[b - 1].0));
            }
        }
    }
    let m = to_map(p).insert(k, w);
    assert forall|x: Seq<char>| #[trigger] agree(to_map(q), m, x) by {
        lemma_to_map_keys(q, x);
        lemma_to_map_keys(p, x);
        if x == k {
            assert(q[at].0 == k);
            lemma_to_map_values(q, at);
        } else if m.contains_key(x) {
            let i = choose|i: int| 0 <= i < p.len() && #[trigger] p[i].0 == x;
            lemma_to_map_values(p, i);
            let j = if i < at {
                i
            } else {
                i + 1
            };
            assert(q[j] == p[i]);
            lemma_to_map_values(q, j);
        } else if to_map(q).contains_key(x) {
            let j = choose|j: int| 0 <= j < q.len() && #[trigger] q[j].0 == x;
            let i = if j < at {
                j
            } else {
                j - 1
            };
            assert(j != at);
            assert(q[j] == p[i]);
        }
    }
    lemma_agree(to_map(q), m);
}

/// Replacing the value of a key that is there.
proof fn lemma_insert_old<W>(p: Seq<(Seq<char>, W)>, at: int, k: Seq<char>, w: W)
    requires
        ascending(p),
        0 <= at < p.len(),
        p[at].0 == k,
    ensures
        ascending(p.update(at, (k, w))),
        to_map(p.update(at, (k, w))) == to_map(p).insert(k, w),
{
    let q = p.update(at, (k, w));
    assert forall|a: int, b: int| 0 <= a < b < q.len() implies less(
        #[trigger] q[a].0,
        #[trigger] q[b].0,
    ) by {
        assert(less(p[a].0, p[b].0));
    }
    let m = to_map(p).insert(k, w);
    assert forall|x: Seq<char>| #[trigger] agree(to_map(q), m, x) by {
        lemma_to_map_keys(q, x);
        lemma_to_map_keys(p, x);
        if x == k {
            assert(q[at].0 == k);
            lemma_to_map_values(q, at);
        } else if m.contains_key(x) {
            let i = choose|i: int| 0 <= i < p.len() && #[trigger] p[i].0 == x;
            lemma_to_map_values(p, i);
            assert(q[i] == p[i]);
            lemma_to_map_values(q, i);
        } else if to_map(q).contains_key(x) {
            let j = choose|j: int| 0 <= j < q.len() && #[trigger] q[j].0 == x;
            assert(q[j] == p[j]);
        }
    }
    lemma_agree(to_map(q), m);
}

/// Taking a key out.
proof fn lemma_remove_old<W>(p: Seq<(Seq<char>, W)>, at: int)
    requires
        ascending(p),
        0 <= at < p.len(),
    ensures
        ascending(p.remove(at)),
        to_map(p.remove(at)) == to_map(p).remove(p[at].0),
{
    let q = p.remove(at);
    let k = p[at].0;
    assert forall|a: int, b: int| 0 <= a < b < q.len() implies less(
        #[trigger] q[a].0,
        #[trigger] q[b].0,
    ) by {
        let x = if a < at {
            a
        } else {
            a + 1
        };
        let y = if b < at {
            b
        } else {
            b + 1
        };
        assert(q[a] == p[x] && q[b] == p[y]);
        assert(less(p[x].0, p[y].0));
    }
    let m = to_map(p).remove(k);
    assert forall|x: Seq<char>| #[trigger] agree(to_map(q), m, x) by {
        lemma_to_map_keys(q, x);
        lemma_to_map_keys(p, x);
        if m.contains_key(x) {
            let i = choose|i: int| 0 <= i < p.len() && #[trigger] p[i].0 == x;
            lemma_to_map_values(p, i);
            let j = if i < at {
                i
            } else {
                i - 1
            };
            assert(q[j] == p[i]);
            lemma_to_map_values(q, j);
        } else if to_map(q).contains_key(x) {
            let j = choose|j: int| 0 <= j < q.len() && #[trigger] q[j].0 == x;
            let i = if j < at {
                j
            } else {
                j + 1
            };
            assert(q[j] == p[i]);
            if x == k {
                lemma_ascending_keys_differ(p, i, at);
            }
        }
    }
    lemma_agree(to_map(q), m);
}

/// A map from text to values, kept in the order of its keys.
pub struct Table<V: DeepView> {
    entries: Vec<(String, V)>,
}

impl<V: DeepView> View for Table<V> {
    type V = Map<Seq<char>, V::V>;

    closed spec fn view(&self) -> Map<Seq<char>, V::V> {
        to_map(self.entries.deep_view())
    }
}

impl<V: DeepView> DeepView for Table<V> {
    type V = Map<Seq<char>, V::V>;

    open spec fn deep_view(&self) -> Map<Seq<char>, V::V> {
        self@
    }
}

impl<V: DeepView> Table<V> {
    #[verifier::type_invariant]
    spec fn in_order(self) -> bool {
        ascending(self.entries.deep_view())
    }

    /// The entries, in the order of their keys.
    pub closed spec fn pairs(&self) -> Seq<(Seq<char>, V::V)> {
        self.entries.deep_view()
    }

    /// The table with no entry.
    pub fn new() -> (r: Self)
        ensures
            r@ == Map::<Seq<char>, V::V>::empty(),
            r.pairs() == Seq::<(Seq<char>, V::V)>::empty(),
    {
        let entries: Vec<(String, V)> = Vec::new();
        assert(entries.deep_view() =~= Seq::empty());
        Table { entries }
    }

    /// How many entries there are.
    pub fn len(&self) -> (r: usize)
        ensures
            r == self.pairs().len(),
            ascending(self.pairs()),
            self@ == to_map(self.pairs()),
            self.pairs() == pairs_of(self@),
    {
        proof {
            use_type_invariant(self);
            lemma_pairs_of(self.pairs());
        }
        self.entries.len()
    }

    /// The key of the entry at `i`.
    pub fn key_at(&self, i: usize) -> (r: &String)
        requires
            i < self.pairs().len(),
        ensures
            r@ == self.pairs()[i as int].0,
    {
        &self.entries[i].0
    }

    /// The value of the entry at `i`.
    pub fn value_at(&self, i: usize) -> (r: &V)
        requires
            i < self.pairs().len(),
        ensures
            r.deep_view() == self.pairs()[i as int].1,
    {
        &self.entries[i].1
    }

    /// The index of the first key that does not come before `k`.
    fn place(&self, k: &str) -> (r: usize)
        ensures
            r <= self.entries.len(),
            ascending(self.entries.deep_view()),
            forall|j: int| 0 <= j < r ==> less(#[trigger] self.entries.deep_view()[j].0, k@),
            r < self.entries.len() ==> self.entries.deep_view()[r as int].0 == k@ || less(
                k@,
                self.entries.deep_view()[r as int].0,
            ),
    {
        proof {
            use_type_invariant(self);
        }
        let mut i: usize = 0;
        while i < self.entries.len() && comes_before(self.entries[i].0.as_str(), k)
            invariant
                i <= self.entries.len(),
                forall|j: int| 0 <= j < i ==> less(#[trigger] self.entries.deep_view()[j].0, k@),
            decreases self.entries.len() - i,
        {
            i = i + 1;
        }
        proof {
            if i < self.entries.len() {
                lemma_less_total(self.entries.deep_view()[i as int].0, k@);
            }
        }
        i
    }

    /// The value of `k`, if it has one.
    pub fn get(&self, k: &str) -> (r: Option<&V>)
        ensures
            match r {
                Some(v) => self@.contains_key(k@) && v.deep_view() == self@[k@],
                None => !self@.contains_key(k@),
            },
    {
        let i: usize = self.place(k);
        let ghost p = self.entries.deep_view();
        proof {
            lemma_to_map_keys(p, k@);
        }
        if i < self.entries.len() && self.entries[i].0.as_str().eq(k) {
            proof {
                assert(p[i as int].0 == k@);
                lemma_to_map_values(p, i as int);
            }
            Some(&self.entries[i].1)
        } else {
            proof {
                assert forall|j: int| 0 <= j < p.len() implies #[trigger] p[j].0 != k@ by {
                    lemma_less_irreflexive(k@);
                    if j > i {
                        assert(less(p[i as int].0, p[j].0));
                        lemma_less_transitive(k@, p[i as int].0, p[j].0);
                    }
                }
            }
            None
        }
    }

    /// Whether `k` has a value.
    pub fn contains_key(&self, k: &str) -> (r: bool)
        ensures
            r == self@.contains_key(k@),
    {
        self.get(k).is_some()
    }

    /// Gives `k` the value `v`.
    pub fn insert(&mut self, k: &str, v: V)
        ensures
            final(self)@ == old(self)@.insert(k@, v.deep_view()),
    {
        let i: usize = self.place(k);
        let ghost p = self.entries.deep_view();
        let mut entries: Vec<(String, V)> = Vec::new();
        assert(entries.deep_view() =~= Seq::empty());
        std::mem::swap(&mut entries, &mut self.entries);
        let ghost w = v.deep_view();
        if i < entries.len() && entries[i].0.as_str().eq(k) {
            proof {
                lemma_insert_old(p, i as int, k@, w);
            }
            entries.set(i, (k.to_owned(), v));
            assert(entries.deep_view() =~= p.update(i as int, (k@, w)));
        } else {
            proof {
                lemma_insert_new(p, i as int, k@, w);
            }
            entries.insert(i, (k.to_owned(), v));
            assert(entries.deep_view() =~= p.insert(i as int, (k@, w)));
        }
        self.entries = entries;
    }

    /// Takes the value of `k` out.
    pub fn remove(&mut self, k: &str)
        ensures
            final(self)@ == old(self)@.remove(k@),
    {
        let i: usize = self.place(k);
        let known: bool = self.contains_key(k);
        let ghost p = self.entries.deep_view();
        let mut entries: Vec<(String, V)> = Vec::new();
        assert(entries.deep_view() =~= Seq::empty());
        std::mem::swap(&mut entries, &mut self.entries);
        if i < entries.len() && entries[i].0.as_str().eq(k) {
            proof {
                lemma_remove_old(p, i as int);
            }
            let _ = entries.remove(i);
            assert(entries.deep_view() =~= p.remove(i as int));
        } else {
            proof {
                lemma_to_map_keys(p, k@);
                assert forall|j: int| 0 <= j < p.len() implies #[trigger] p[j].0 != k@ by {
                    lemma_less_irreflexive(k@);
                    if j > i {
                        assert(less(p[i as int].0, p[j].0));
                        lemma_less_transitive(k@, p[i as int].0, p[j].0);
                    }
                }
                assert(to_map(p).remove(k@) =~= to_map(p));
            }
        }
        self.entries = entries;
    }
}

impl Table<String> {
    /// A table with the same entries.
    pub fn copy(&self) -> (r: Self)
        ensures
            r@ == self@,
            r.pairs() == self.pairs(),
    {
        proof {
            use_type_invariant(self);
        }
        let mut entries: Vec<(String, String)> = Vec::new();
        let mut i: usize = 0;
        let ghost p = self.entries.deep_view();
        while i < self.entries.len()
            invariant
                i <= self.entries.len(),
                p == self.entries.deep_view(),
                entries.deep_view() == p.take(i as int),
            decreases self.entries.len() - i,
        {
            entries.push((self.entries[i].0.clone(), self.entries[i].1.clone()));
            assert(entries.deep_view() =~= p.take(i as int).push(p[i as int]));
            assert(p.take(i + 1) =~= p.take(i as int).push(p[i as int]));
            i = i + 1;
        }
        assert(p.take(p.len() as int) =~= p);
        Table { entries }
    }

    /// Adds the entries of another table, which win over those of this one.
    pub fn extend_from(&mut self, other: &Table<String>)
        ensures
            final(self)@ == old(self)@.union_prefer_right(other@),
    {
        let n: usize = other.len();
        let ghost p = other.pairs();
        let ghost start = self@;
        let mut i: usize = 0;
        assert(p.take(0) =~= Seq::empty());
        assert(start.union_prefer_right(to_map(p.take(0))) =~= start);
        while i < n
            invariant
                i <= n,
                n == p.len(),
                p == other.pairs(),
                self@ == start.union_prefer_right(to_map(p.take(i as int))),
            decreases n - i,
        {
            let v = other.value_at(i).clone();
            self.insert(other.key_at(i).as_str(), v);
            assert(p.take(i + 1).drop_last() =~= p.take(i as int));
            assert(self@ =~= start.union_prefer_right(to_map(p.take(i + 1))));
            i = i + 1;
        }
        assert(p.take(n as int) =~= p);
    }

    /// The value of `k`, or `default`.
    pub fn get_or(&self, k: &str, default: &str) -> (r: String)
        ensures
            r@ == (if self@.contains_key(k@) {
                self@[k@]
            } else {
                default@
            }),
    {
        match self.get(k) {
            Some(v) => v.clone(),
            None => default.to_owned(),
        }
    }
}

impl Table<Option<String>> {
    /// A table with the same entries.
    pub fn copy(&self) -> (r: Self)
        ensures
            r@ == self@,
            r.pairs() == self.pairs(),
    {
        proof {
            use_type_invariant(self);
        }
        let mut entries: Vec<(String, Option<String>)> = Vec::new();
        let mut i: usize = 0;
        let ghost p = self.entries.deep_view();
        while i < self.entries.len()
            invariant
                i <= self.entries.len(),
                p == self.entries.deep_view(),
                entries.deep_view() == p.take(i as int),
            decreases self.entries.len() - i,
        {
            let v = crate::text::copy_option(&self.entries[i].1);
            entries.push((self.entries[i].0.clone(), v));
            assert(entries.deep_view() =~= p.take(i as int).push(p[i as int]));
            assert(p.take(i + 1) =~= p.take(i as int).push(p[i as int]));
            i = i + 1;
        }
        assert(p.take(p.len() as int) =~= p);
        Table { entries }
    }

    /// Adds the entries of another table, which win over those of this one.
    pub fn extend_from(&mut self, other: &Table<Option<String>>)
        ensures
            final(self)@ == old(self)@.union_prefer_right(other@),
    {
        let n: usize = other.len();
        let ghost p = other.pairs();
        let ghost start = self@;
        let mut i: usize = 0;
        assert(p.take(0) =~= Seq::empty());
        assert(start.union_prefer_right(to_map(p.take(0))) =~= start);
        while i < n
            invariant
                i <= n,
                n == p.len(),
                p == other.pairs(),
                self@ == start.union_prefer_right(to_map(p.take(i as int))),
            decreases n - i,
        {
            let v = crate::text::copy_option(other.value_at(i));
            self.insert(other.key_at(i).as_str(), v);
            assert(p.take(i + 1).drop_last() =~= p.take(i as int));
            assert(self@ =~= start.union_prefer_right(to_map(p.take(i + 1))));
            i = i + 1;
        }
        assert(p.take(n as int) =~= p);
    }
}

} // verus!
