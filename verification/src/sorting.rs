//! Stable sorting, as an order of indices.

use vstd::prelude::*;

verus! {

/// Puts index `x` into an order: behind the last index whose key is not greater.
pub open spec fn place(o: Seq<int>, keys: Seq<int>, x: int) -> Seq<int>
    decreases o.len(),
{
    if o.len() == 0 || keys[o.last()] <= keys[x] {
        o.push(x)
    } else {
        place(o.drop_last(), keys, x).push(o.last())
    }
}

/// The indices below `n`, put into an order one after the other.
pub open spec fn order_to(keys: Seq<int>, n: int) -> Seq<int>
    decreases n,
{
    if n <= 0 {
        Seq::empty()
    } else {
        place(order_to(keys, n - 1), keys, n - 1)
    }
}

/// The indices of a list in ascending order of its keys; those with equal keys
/// keep their order.
pub open spec fn order(keys: Seq<int>) -> Seq<int> {
    order_to(keys, keys.len() as int)
}

/// Whether `a` may stand before `b` in a stable order.
pub open spec fn may_precede(keys: Seq<int>, a: int, b: int) -> bool {
    keys[a] < keys[b] || (keys[a] == keys[b] && a < b)
}

/// Whether an order is one of the indices below `n`, ascending and stable.
pub open spec fn is_order(o: Seq<int>, keys: Seq<int>, n: int) -> bool {
    &&& o.len() == n
    &&& forall|i: int| 0 <= i < o.len() ==> 0 <= #[trigger] o[i] < n
    &&& forall|i: int, j: int|
        0 <= i < j < o.len() ==> may_precede(keys, #[trigger] o[i], #[trigger] o[j])
}

proof fn lemma_place(o: Seq<int>, keys: Seq<int>, x: int)
    requires
        forall|i: int| 0 <= i < o.len() ==> 0 <= #[trigger] o[i] < x,
        forall|i: int, j: int|
            0 <= i < j < o.len() ==> may_precede(keys, #[trigger] o[i], #[trigger] o[j]),
    ensures
        place(o, keys, x).len() == o.len() + 1,
        forall|i: int|
            0 <= i < place(o, keys, x).len() ==> (#[trigger] place(o, keys, x)[i] == x || o.contains(
                place(o, keys, x)[i],
            )),
        forall|i: int, j: int|
            0 <= i < j < place(o, keys, x).len() ==> may_precede(
                keys,
                #[trigger] place(o, keys, x)[i],
                #[trigger] place(o, keys, x)[j],
            ),
    decreases o.len(),
{
    let p = place(o, keys, x);
    if o.len() == 0 || keys[o.last()] <= keys[x] {
        assert forall|i: int| 0 <= i < p.len() implies (#[trigger] p[i] == x || o.contains(p[i])) by {
            if i < o.len() {
                assert(o[i] == p[i]);
            }
        }
        assert forall|i: int, j: int| 0 <= i < j < p.len() implies may_precede(
            keys,
            #[trigger] p[i],
            #[trigger] p[j],
        ) by {
            assert(p[i] == o[i]);
            if j < o.len() {
                assert(p[j] == o[j]);
            } else if i < o.len() - 1 {
                assert(may_precede(keys, o[i], o[o.len() - 1]));
            }
        }
    } else {
        let q = o.drop_last();
        assert forall|i: int| 0 <= i < q.len() implies 0 <= #[trigger] q[i] < x by {
            assert(q[i] == o[i]);
        }
        assert forall|i: int, j: int| 0 <= i < j < q.len() implies may_precede(
            keys,
            #[trigger] q[i],
            #[trigger] q[j],
        ) by {
            assert(may_precede(keys, o[i], o[j]));
        }
        lemma_place(q, keys, x);
        let r = place(q, keys, x);
        assert(p =~= r.push(o.last()));
        assert forall|i: int| 0 <= i < p.len() implies (#[trigger] p[i] == x || o.contains(p[i])) by {
            if i < r.len() {
                assert(p[i] == r[i]);
                if r[i] != x {
                    let k = choose|k: int| 0 <= k < q.len() && q[k] == r[i];
                    assert(o[k] == r[i]);
                }
            } else {
                assert(p[i] == o[o.len() - 1]);
            }
        }
        assert forall|i: int, j: int| 0 <= i < j < p.len() implies may_precede(
            keys,
            #[trigger] p[i],
            #[trigger] p[j],
        ) by {
            if j < r.len() {
                assert(p[i] == r[i] && p[j] == r[j]);
            } else {
                assert(p[i] == r[i]);
                if r[i] != x {
                    let k = choose|k: int| 0 <= k < q.len() && q[k] == r[i];
                    assert(may_precede(keys, o[k], o[o.len() - 1]));
                }
            }
        }
    }
}

proof fn lemma_order_to(keys: Seq<int>, n: int)
    requires
        n >= 0,
    ensures
        is_order(order_to(keys, n), keys, n),
    decreases n,
{
    if n > 0 {
        lemma_order_to(keys, n - 1);
        let o = order_to(keys, n - 1);
        lemma_place(o, keys, n - 1);
        let p = order_to(keys, n);
        assert forall|i: int| 0 <= i < p.len() implies 0 <= #[trigger] p[i] < n by {
            if p[i] != n - 1 {
                let k = choose|k: int| 0 <= k < o.len() && o[k] == p[i];
                assert(0 <= o[k] < n - 1);
            }
        }
    }
}

/// The order of a list is an order: ascending, stable, and with each index once.
pub proof fn order_is_sorted(keys: Seq<int>)
    ensures
        is_order(order(keys), keys, keys.len() as int),
        order(keys).no_duplicates(),
{
    lemma_order_to(keys, keys.len() as int);
    let o = order(keys);
    assert forall|i: int, j: int| 0 <= i < o.len() && 0 <= j < o.len() && i != j implies o[i]
        != o[j] by {
        if i < j {
            assert(may_precede(keys, o[i], o[j]));
        } else {
            assert(may_precede(keys, o[j], o[i]));
        }
    }
}

/// The views of indices as integers.
pub open spec fn indices(v: Seq<usize>) -> Seq<int> {
    v.map_values(|x: usize| x as int)
}

/// The views of keys as integers.
pub open spec fn key_values(v: Seq<i128>) -> Seq<int> {
    v.map_values(|x: i128| x as int)
}

fn place_into(o: &mut Vec<usize>, keys: &Vec<i128>, x: usize)
    requires
        x < keys.len(),
        forall|i: int| 0 <= i < old(o)@.len() ==> old(o)@[i] < keys.len(),
    ensures
        indices(final(o)@) == place(indices(old(o)@), key_values(keys@), x as int),
        forall|i: int| 0 <= i < final(o)@.len() ==> final(o)@[i] < keys.len(),
    decreases old(o)@.len(),
{
    let ghost start = o@;
    let ghost ks = key_values(keys@);
    let n: usize = o.len();
    if n == 0 || keys[o[n - 1]] <= keys[x] {
        assert(n > 0 ==> indices(start).last() == start[n - 1]);
        o.push(x);
        assert(indices(o@) =~= indices(start).push(x as int));
    } else {
        assert(indices(start).last() == start[n - 1]);
        let last: usize = o[n - 1];
        let _ = o.pop();
        assert(o@ =~= start.drop_last());
        assert(indices(o@) =~= indices(start).drop_last());
        place_into(o, keys, x);
        let ghost mid = o@;
        o.push(last);
        assert(indices(o@) =~= indices(mid).push(last as int));
    }
}

/// The indices of a list in ascending order of its keys; those with equal keys
/// keep their order.
pub fn order_of(keys: &Vec<i128>) -> (r: Vec<usize>)
    ensures
        indices(r@) == order(key_values(keys@)),
        r@.len() == keys@.len(),
        forall|i: int| 0 <= i < r@.len() ==> r@[i] < keys.len(),
{
    let mut out: Vec<usize> = Vec::new();
    let mut i: usize = 0;
    let ghost ks = key_values(keys@);
    assert(indices(out@) =~= Seq::<int>::empty());
    while i < keys.len()
        invariant
            i <= keys.len(),
            ks == key_values(keys@),
            indices(out@) == order_to(ks, i as int),
            forall|j: int| 0 <= j < out@.len() ==> out@[j] < keys.len(),
        decreases keys.len() - i,
    {
        place_into(&mut out, keys, i);
        i = i + 1;
    }
    proof {
        order_is_sorted(ks);
        assert(indices(out@).len() == out@.len());
    }
    out
}

} // verus!
