//! What series of calls come to: the counts of requests, the groups of problems,
//! and the requests that are being answered.

use vstd::prelude::*;

use crate::servers::info::{
    class_of, count_of, counted, group_at, grown, kept, lemma_first_group, lemma_first_group_is,
    lemma_group_at, lemma_oldest, new_group, next_level, oldest, path_counted, previous_level,
    recorded, sum64, tallied, with_answer, Answered, IssueGroupView, IssueKind, OccurrenceView,
    Totals, MAX_ISSUE_GROUPS, MAX_OCCURRENCES_PER_GROUP,
};
use crate::table::pairs_of;

verus! {

// ---------------------------------------------------------------------------
// Counts
// ---------------------------------------------------------------------------

/// Nothing counted yet.
pub open spec fn no_totals() -> Totals {
    Totals {
        requests: 0,
        sent: 0,
        received: 0,
        by_method: Map::empty(),
        by_status: Seq::empty(),
        by_class: Map::empty(),
        paths: Map::empty(),
        error_paths: Map::empty(),
    }
}

/// What is counted after a series of answered requests.
pub open spec fn totals_after(all: Seq<Answered>) -> Totals
    decreases all.len(),
{
    if all.len() == 0 {
        no_totals()
    } else {
        with_answer(totals_after(all.drop_last()), all.last())
    }
}

/// How many of some requests have a property.
pub open spec fn how_many(all: Seq<Answered>, with: spec_fn(Answered) -> bool) -> int
    decreases all.len(),
{
    if all.len() == 0 {
        0
    } else {
        how_many(all.drop_last(), with) + (if with(all.last()) {
            1int
        } else {
            0
        })
    }
}

/// How many bytes were sent for some requests.
pub open spec fn all_sent(all: Seq<Answered>) -> int
    decreases all.len(),
{
    if all.len() == 0 {
        0
    } else {
        all_sent(all.drop_last()) + all.last().sent
    }
}

/// How many bytes were received with some requests.
pub open spec fn all_received(all: Seq<Answered>) -> int
    decreases all.len(),
{
    if all.len() == 0 {
        0
    } else {
        all_received(all.drop_last()) + all.last().received
    }
}

/// What a list of counts by number says of a number.
pub open spec fn count_in_list(list: Seq<(u64, u64)>, key: u64) -> int
    decreases list.len(),
{
    if list.len() == 0 {
        0
    } else {
        count_in_list(list.drop_last(), key) + (if list.last().0 == key {
            list.last().1 as int
        } else {
            0
        })
    }
}

/// The sum of the counts of a list.
pub open spec fn sum_of_list(list: Seq<(u64, u64)>) -> int
    decreases list.len(),
{
    if list.len() == 0 {
        0
    } else {
        sum_of_list(list.drop_last()) + list.last().1
    }
}

/// The sum of the counts of some keys.
pub open spec fn sum_over(m: Map<Seq<char>, u64>, keys: Set<Seq<char>>) -> int
    decreases keys.len(),
{
    if keys.finite() && keys.len() > 0 {
        let k = keys.choose();
        m[k] + sum_over(m, keys.remove(k))
    } else {
        0
    }
}

proof fn lemma_sum_pull(m: Map<Seq<char>, u64>, keys: Set<Seq<char>>, k: Seq<char>)
    requires
        keys.finite(),
        keys.contains(k),
    ensures
        sum_over(m, keys) == m[k] + sum_over(m, keys.remove(k)),
    decreases keys.len(),
{
    let c = keys.choose();
    if c != k {
        lemma_sum_pull(m, keys.remove(c), k);
        lemma_sum_pull(m, keys.remove(k), c);
        assert(keys.remove(c).remove(k) =~= keys.remove(k).remove(c));
    }
}

proof fn lemma_sum_same(m: Map<Seq<char>, u64>, n: Map<Seq<char>, u64>, keys: Set<Seq<char>>)
    requires
        keys.finite(),
        forall|k: Seq<char>| #[trigger] keys.contains(k) ==> m[k] == n[k],
    ensures
        sum_over(m, keys) == sum_over(n, keys),
    decreases keys.len(),
{
    if keys.len() > 0 {
        let c = keys.choose();
        lemma_sum_same(m, n, keys.remove(c));
    }
}

proof fn lemma_sum_tallied(m: Map<Seq<char>, u64>, k: Seq<char>)
    requires
        m.dom().finite(),
        count_of(m, k) < u64::MAX,
    ensures
        tallied(m, k).dom().finite(),
        sum_over(tallied(m, k), tallied(m, k).dom()) == sum_over(m, m.dom()) + 1,
{
    let t = tallied(m, k);
    let rest = m.dom().remove(k);
    assert(t.dom() =~= m.dom().insert(k));
    lemma_sum_pull(t, t.dom(), k);
    assert(t.dom().remove(k) =~= rest);
    lemma_sum_same(t, m, rest);
    if m.contains_key(k) {
        lemma_sum_pull(m, m.dom(), k);
    } else {
        assert(rest =~= m.dom());
    }
}

proof fn lemma_list_counts(list: Seq<(u64, u64)>, key: u64)
    ensures
        0 <= count_in_list(list, key) <= sum_of_list(list),
    decreases list.len(),
{
    if list.len() > 0 {
        lemma_list_counts(list.drop_last(), key);
    }
}

proof fn lemma_counted_once(list: Seq<(u64, u64)>, key: u64, other: u64)
    requires
        sum_of_list(list) < u64::MAX,
    ensures
        count_in_list(counted(list, key), other) == count_in_list(list, other) + (if other == key {
            1int
        } else {
            0
        }),
        sum_of_list(counted(list, key)) == sum_of_list(list) + 1,
    decreases list.len(),
{
    let new = counted(list, key);
    if list.len() == 0 || list.last().0 < key {
        assert(new.drop_last() =~= list);
        assert(new.last() == (key, 1u64));
    } else {
        lemma_list_counts(list.drop_last(), key);
        if list.last().0 == key {
            assert(new.drop_last() =~= list.drop_last());
            assert(new.last() == (key, sum64(list.last().1, 1)));
        } else {
            lemma_counted_once(list.drop_last(), key, other);
            assert(new.drop_last() =~= counted(list.drop_last(), key));
            assert(new.last() == list.last());
        }
    }
}

proof fn lemma_how_many(all: Seq<Answered>, with: spec_fn(Answered) -> bool)
    ensures
        0 <= how_many(all, with) <= all.len(),
    decreases all.len(),
{
    if all.len() > 0 {
        lemma_how_many(all.drop_last(), with);
    }
}

/// After a series of answered requests their number is the number of requests; the
/// bytes are the sums of theirs, as far as these fit; and the counts by method, by
/// status and by class are, for each of them, the number of requests with it, and
/// sum up to the number of all.
pub proof fn totals_add_up(all: Seq<Answered>)
    requires
        all.len() < u64::MAX,
    ensures
        ({
            let t = totals_after(all);
            let n = all.len();
            &&& t.requests == n
            &&& t.sent == all_sent(all) % 0x1_0000_0000_0000_0000
            &&& t.received == all_received(all) % 0x1_0000_0000_0000_0000
            &&& forall|m: Seq<char>| #[trigger]
                count_of(t.by_method, m) == how_many(all, |a: Answered| a.method == m)
            &&& forall|c: Seq<char>| #[trigger]
                count_of(t.by_class, c) == how_many(all, |a: Answered| class_of(a.status) == c)
            &&& forall|s: u64| #[trigger]
                count_in_list(t.by_status, s) == how_many(all, |a: Answered| a.status == s)
            &&& t.by_method.dom().finite() && sum_over(t.by_method, t.by_method.dom()) == n
            &&& t.by_class.dom().finite() && sum_over(t.by_class, t.by_class.dom()) == n
            &&& sum_of_list(t.by_status) == n
        }),
    decreases all.len(),
{
    if all.len() == 0 {
        let t = totals_after(all);
        assert(t.by_method.dom() =~= Set::<Seq<char>>::empty());
        assert(t.by_class.dom() =~= Set::<Seq<char>>::empty());
    } else {
        let before = all.drop_last();
        let last = all.last();
        let b = totals_after(before);
        let t = totals_after(all);
        totals_add_up(before);
        lemma_how_many(before, |a: Answered| a.method == last.method);
        lemma_how_many(before, |a: Answered| class_of(a.status) == class_of(last.status));
        assert(count_of(b.by_method, last.method) < u64::MAX);
        assert(count_of(b.by_class, class_of(last.status)) < u64::MAX);
        lemma_sum_tallied(b.by_method, last.method);
        lemma_sum_tallied(b.by_class, class_of(last.status));
        lemma_counted_once(b.by_status, last.status as u64, 0);
        lemma_wrapped(all_sent(before), last.sent as int);
        lemma_wrapped(all_received(before), last.received as int);
        assert forall|m: Seq<char>| #[trigger]
            count_of(t.by_method, m) == how_many(all, |a: Answered| a.method == m) by {
            assert(count_of(b.by_method, m) == how_many(before, |a: Answered| a.method == m));
        }
        assert forall|c: Seq<char>| #[trigger]
            count_of(t.by_class, c) == how_many(all, |a: Answered| class_of(a.status) == c) by {
            assert(count_of(b.by_class, c) == how_many(
                before,
                |a: Answered| class_of(a.status) == c,
            ));
        }
        assert forall|s: u64| #[trigger]
            count_in_list(t.by_status, s) == how_many(all, |a: Answered| a.status == s) by {
            lemma_counted_once(b.by_status, last.status as u64, s);
            assert(count_in_list(b.by_status, s) == how_many(before, |a: Answered| a.status == s));
        }
    }
}

proof fn lemma_wrapped(a: int, b: int)
    ensures
        (a % 0x1_0000_0000_0000_0000 + b) % 0x1_0000_0000_0000_0000 == (a + b)
            % 0x1_0000_0000_0000_0000,
{
}

/// A path counts as one of errors only for requests that were answered with an
/// error, and at most once for each of them.
pub proof fn only_errors_count_as_errors(all: Seq<Answered>, path: Seq<char>)
    requires
        all.len() < u64::MAX,
        totals_after(all).error_paths.contains_key(path),
    ensures
        1 <= totals_after(all).error_paths[path] <= how_many(
            all,
            |a: Answered| a.path == path && a.status >= 400,
        ),
    decreases all.len(),
{
    let with = |a: Answered| a.path == path && a.status >= 400;
    if all.len() > 0 {
        let before = all.drop_last();
        let e = totals_after(before).error_paths;
        lemma_how_many(before, with);
        if e.contains_key(path) {
            only_errors_count_as_errors(before, path);
        }
        if all.last().status >= 400 {
            let p = pairs_of(e);
            assert(totals_after(all).error_paths == path_counted(e, p, all.last().path));
        }
    }
}

// ---------------------------------------------------------------------------
// Problems
// ---------------------------------------------------------------------------

/// A problem, as it is recorded.
pub struct Problem {
    pub kind: IssueKind,
    pub path: Seq<char>,
    pub cause: Seq<char>,
    pub what: OccurrenceView,
}

/// The groups after a series of problems.
pub open spec fn groups_after(all: Seq<Problem>) -> Seq<IssueGroupView>
    decreases all.len(),
{
    if all.len() == 0 {
        Seq::empty()
    } else {
        let p = all.last();
        recorded(groups_after(all.drop_last()), p.kind, p.path, p.cause, p.what)
    }
}

/// Whether a group is that of a kind of problem with a path and a cause.
pub open spec fn is_group(g: IssueGroupView, kind: IssueKind, path: Seq<char>, cause: Seq<char>) -> bool {
    g.kind == kind && g.path == path && g.cause == cause
}

/// Whether there is a group for a kind of problem with a path and a cause.
pub open spec fn has_group(
    g: Seq<IssueGroupView>,
    kind: IssueKind,
    path: Seq<char>,
    cause: Seq<char>,
) -> bool {
    group_at(g, 0, kind, path, cause) < g.len()
}

/// The group for a kind of problem with a path and a cause.
pub open spec fn group_for(
    g: Seq<IssueGroupView>,
    kind: IssueKind,
    path: Seq<char>,
    cause: Seq<char>,
) -> IssueGroupView {
    g[group_at(g, 0, kind, path, cause)]
}

/// Whether no two groups are for the same problem.
pub open spec fn one_each(g: Seq<IssueGroupView>) -> bool {
    forall|i: int, j: int|
        0 <= i < j < g.len() ==> !is_group(
            #[trigger] g[i],
            (#[trigger] g[j]).kind,
            g[j].path,
            g[j].cause,
        )
}

/// The occurrences of one problem in a series.
pub open spec fn occurrences_of(
    all: Seq<Problem>,
    kind: IssueKind,
    path: Seq<char>,
    cause: Seq<char>,
) -> Seq<OccurrenceView>
    decreases all.len(),
{
    if all.len() == 0 {
        Seq::empty()
    } else {
        let before = occurrences_of(all.drop_last(), kind, path, cause);
        let p = all.last();
        if p.kind == kind && p.path == path && p.cause == cause {
            before.push(p.what)
        } else {
            before
        }
    }
}

/// Where in a series the group that there is now for a problem was made.
pub open spec fn made_at(all: Seq<Problem>, kind: IssueKind, path: Seq<char>, cause: Seq<char>) -> int
    decreases all.len(),
{
    if all.len() == 0 {
        0
    } else if has_group(groups_after(all.drop_last()), kind, path, cause) {
        made_at(all.drop_last(), kind, path, cause)
    } else {
        all.len() - 1
    }
}

/// The last `n` of a list, or all where there are not so many.
pub open spec fn last_of<T>(s: Seq<T>, n: int) -> Seq<T> {
    if s.len() > n {
        s.skip(s.len() - n)
    } else {
        s
    }
}

proof fn lemma_group_is_at(
    g: Seq<IssueGroupView>,
    at: int,
    kind: IssueKind,
    path: Seq<char>,
    cause: Seq<char>,
)
    requires
        one_each(g),
        0 <= at < g.len(),
        is_group(g[at], kind, path, cause),
    ensures
        group_at(g, 0, kind, path, cause) == at,
{
    assert forall|j: int| 0 <= j < at implies !((#[trigger] g[j]).kind == kind && g[j].path == path
        && g[j].cause == cause) by {
        assert(!is_group(g[j], g[at].kind, g[at].path, g[at].cause));
    }
    lemma_first_group_is(g, 0, at, kind, path, cause);
}

/// A recorded problem has its group afterwards.
pub proof fn lemma_recorded_is_there(
    g: Seq<IssueGroupView>,
    kind: IssueKind,
    path: Seq<char>,
    cause: Seq<char>,
    o: OccurrenceView,
)
    ensures
        exists|j: int|
            0 <= j < recorded(g, kind, path, cause, o).len() && is_group(
                #[trigger] recorded(g, kind, path, cause, o)[j],
                kind,
                path,
                cause,
            ) && recorded(g, kind, path, cause, o)[j].last_seen == o.unix_secs,
{
    let r = recorded(g, kind, path, cause, o);
    let i = group_at(g, 0, kind, path, cause);
    lemma_group_at(g, 0, kind, path, cause);
    lemma_first_group(g, 0, kind, path, cause);
    if i < g.len() {
        assert(r[i] == grown(g[i], o));
    } else {
        if g.len() > 0 {
            lemma_oldest(g, 0, 0);
        }
        assert(r[r.len() - 1] == new_group(kind, path, cause, o));
    }
}

proof fn lemma_recorded(
    g: Seq<IssueGroupView>,
    p: Problem,
    kind: IssueKind,
    path: Seq<char>,
    cause: Seq<char>,
)
    requires
        one_each(g),
        g.len() <= MAX_ISSUE_GROUPS,
    ensures
        ({
            let r = recorded(g, p.kind, p.path, p.cause, p.what);
            &&& one_each(r)
            &&& r.len() <= MAX_ISSUE_GROUPS
            &&& has_group(r, p.kind, p.path, p.cause)
            &&& group_for(r, p.kind, p.path, p.cause) == (if has_group(
                g,
                p.kind,
                p.path,
                p.cause,
            ) {
                grown(group_for(g, p.kind, p.path, p.cause), p.what)
            } else {
                new_group(p.kind, p.path, p.cause, p.what)
            })
            &&& !(p.kind == kind && p.path == path && p.cause == cause) && has_group(
                r,
                kind,
                path,
                cause,
            ) ==> has_group(g, kind, path, cause) && group_for(r, kind, path, cause) == group_for(
                g,
                kind,
                path,
                cause,
            )
        }),
{
    let r = recorded(g, p.kind, p.path, p.cause, p.what);
    let i = group_at(g, 0, p.kind, p.path, p.cause);
    lemma_group_at(g, 0, p.kind, p.path, p.cause);
    lemma_first_group(g, 0, p.kind, p.path, p.cause);
    if g.len() > 0 {
        lemma_oldest(g, 0, 0);
    }
    let gone = oldest(g, 0, 0);
    assert forall|a: int, b: int| 0 <= a < b < r.len() implies !is_group(
        #[trigger] r[a],
        (#[trigger] r[b]).kind,
        r[b].path,
        r[b].cause,
    ) by {
        if i < g.len() {
            assert(!is_group(g[a], g[b].kind, g[b].path, g[b].cause));
        } else {
            let shift = g.len() >= MAX_ISSUE_GROUPS;
            let x = if shift && a >= gone {
                a + 1
            } else {
                a
            };
            let y = if shift && b >= gone {
                b + 1
            } else {
                b
            };
            assert(r[a] == g[x]);
            if b < r.len() - 1 {
                assert(r[b] == g[y]);
                assert(!is_group(g[x], g[y].kind, g[y].path, g[y].cause));
            } else {
                assert(r[b] == new_group(p.kind, p.path, p.cause, p.what));
            }
        }
    }
    if i < g.len() {
        lemma_group_is_at(r, i, p.kind, p.path, p.cause);
    } else {
        lemma_group_is_at(r, r.len() - 1, p.kind, p.path, p.cause);
    }
    let j = group_at(r, 0, kind, path, cause);
    if !(p.kind == kind && p.path == path && p.cause == cause) && j < r.len() {
        lemma_group_at(r, 0, kind, path, cause);
        lemma_first_group(r, 0, kind, path, cause);
        assert(is_group(r[j], kind, path, cause));
        if i < g.len() {
            assert(j != i);
            lemma_group_is_at(g, j, kind, path, cause);
        } else {
            assert(j < r.len() - 1);
            let x = if g.len() >= MAX_ISSUE_GROUPS && j >= gone {
                j + 1
            } else {
                j
            };
            assert(r[j] == g[x]);
            lemma_group_is_at(g, x, kind, path, cause);
        }
    }
}

/// However many problems are recorded, there are at most so many groups as there
/// may be, and no two for the same problem.
pub proof fn problems_have_one_group_each(all: Seq<Problem>)
    ensures
        groups_after(all).len() <= MAX_ISSUE_GROUPS,
        one_each(groups_after(all)),
    decreases all.len(),
{
    if all.len() > 0 {
        let p = all.last();
        problems_have_one_group_each(all.drop_last());
        lemma_recorded(groups_after(all.drop_last()), p, p.kind, p.path, p.cause);
    }
}

/// A group counts the times that its problem was recorded since the group was
/// made, and holds the last of them, in their order.
pub proof fn groups_tell_their_history(
    all: Seq<Problem>,
    kind: IssueKind,
    path: Seq<char>,
    cause: Seq<char>,
)
    requires
        all.len() < u64::MAX,
        has_group(groups_after(all), kind, path, cause),
    ensures
        ({
            let g = group_for(groups_after(all), kind, path, cause);
            let since = made_at(all, kind, path, cause);
            let mine = occurrences_of(all.skip(since), kind, path, cause);
            &&& 0 <= since < all.len()
            &&& all[since].kind == kind && all[since].path == path && all[since].cause == cause
            &&& mine.len() > 0
            &&& g.count == mine.len()
            &&& g.last_seen == mine.last().unix_secs
            &&& g.occurrences == last_of(mine, MAX_OCCURRENCES_PER_GROUP as int)
        }),
    decreases all.len(),
{
    let before = all.drop_last();
    let b = groups_after(before);
    let p = all.last();
    problems_have_one_group_each(before);
    lemma_recorded(b, p, kind, path, cause);
    let since = made_at(all, kind, path, cause);
    let same = p.kind == kind && p.path == path && p.cause == cause;
    if has_group(b, kind, path, cause) {
        groups_tell_their_history(before, kind, path, cause);
        let mine = occurrences_of(before.skip(since), kind, path, cause);
        assert(all.skip(since).drop_last() =~= before.skip(since));
        assert(all.skip(since).last() == p);
        lemma_occurrences(before.skip(since), kind, path, cause);
        if same {
            let n = MAX_OCCURRENCES_PER_GROUP as int;
            assert(kept(last_of(mine, n), n, p.what) =~= last_of(mine.push(p.what), n));
        }
    } else {
        assert(same);
        assert(since == all.len() - 1);
        assert(all.skip(since) =~= seq![p]);
        assert(seq![p].drop_last() =~= Seq::<Problem>::empty());
        assert(occurrences_of(Seq::<Problem>::empty(), kind, path, cause) =~= Seq::empty());
        assert(occurrences_of(all.skip(since), kind, path, cause) =~= seq![p.what]);
    }
}

proof fn lemma_occurrences(all: Seq<Problem>, kind: IssueKind, path: Seq<char>, cause: Seq<char>)
    ensures
        occurrences_of(all, kind, path, cause).len() <= all.len(),
    decreases all.len(),
{
    if all.len() > 0 {
        lemma_occurrences(all.drop_last(), kind, path, cause);
    }
}

/// A problem that has its group makes no other one and leaves the others as they
/// are. A new one takes the place of exactly one group where there are as many as
/// there may be, and that is one that was met last no later than any other.
pub proof fn one_group_changes_at_a_time(g: Seq<IssueGroupView>, p: Problem)
    ensures
        ({
            let r = recorded(g, p.kind, p.path, p.cause, p.what);
            let i = group_at(g, 0, p.kind, p.path, p.cause);
            let new = new_group(p.kind, p.path, p.cause, p.what);
            &&& has_group(g, p.kind, p.path, p.cause) ==> r.len() == g.len() && forall|j: int|
                0 <= j < g.len() && j != i ==> #[trigger] r[j] == g[j]
            &&& !has_group(g, p.kind, p.path, p.cause) && g.len() < MAX_ISSUE_GROUPS ==> r
                == g.push(new)
            &&& !has_group(g, p.kind, p.path, p.cause) && g.len() >= MAX_ISSUE_GROUPS ==> exists|
                gone: int,
            |
                0 <= gone < g.len() && r == (#[trigger] g.remove(gone)).push(new) && forall|j: int|
                    0 <= j < g.len() ==> g[gone].last_seen <= (#[trigger] g[j]).last_seen
        }),
{
    let r = recorded(g, p.kind, p.path, p.cause, p.what);
    lemma_group_at(g, 0, p.kind, p.path, p.cause);
    if g.len() > 0 {
        lemma_oldest(g, 0, 0);
        let gone = oldest(g, 0, 0);
        assert(g.remove(gone).len() == g.len() - 1);
    }
}

// ---------------------------------------------------------------------------
// Requests that are being answered
// ---------------------------------------------------------------------------

/// What happens to a guard.
pub enum GuardEvent {
    /// One for a request is taken.
    Taken,
    /// One for a request is given back.
    Released,
    /// One for a request to the development server is taken.
    UpstreamTaken,
    /// One for a request to the development server is given back.
    UpstreamReleased,
}

/// The numbers of requests that are being answered, by the server and by the
/// development server, after a series of such events.
pub open spec fn levels_after(all: Seq<GuardEvent>) -> (i64, i64)
    decreases all.len(),
{
    if all.len() == 0 {
        (0i64, 0i64)
    } else {
        let l = levels_after(all.drop_last());
        match all.last() {
            GuardEvent::Taken => (next_level(l.0), l.1),
            GuardEvent::Released => (previous_level(l.0), l.1),
            GuardEvent::UpstreamTaken => (l.0, next_level(l.1)),
            GuardEvent::UpstreamReleased => (l.0, previous_level(l.1)),
        }
    }
}

/// How many guards of each kind were taken and not given back.
pub open spec fn guards_out(all: Seq<GuardEvent>) -> (int, int)
    decreases all.len(),
{
    if all.len() == 0 {
        (0int, 0int)
    } else {
        let n = guards_out(all.drop_last());
        match all.last() {
            GuardEvent::Taken => (n.0 + 1, n.1),
            GuardEvent::Released => (n.0 - 1, n.1),
            GuardEvent::UpstreamTaken => (n.0, n.1 + 1),
            GuardEvent::UpstreamReleased => (n.0, n.1 - 1),
        }
    }
}

/// In whatever order guards are taken and given back, the numbers of requests that
/// are being answered are those of the guards that were not given back yet. The two
/// kinds of guards do not touch each other's number.
pub proof fn levels_count_guards(all: Seq<GuardEvent>)
    requires
        all.len() <= i64::MAX,
    ensures
        levels_after(all).0 == guards_out(all).0,
        levels_after(all).1 == guards_out(all).1,
        -(all.len() as int) <= guards_out(all).0 <= all.len(),
        -(all.len() as int) <= guards_out(all).1 <= all.len(),
    decreases all.len(),
{
    if all.len() > 0 {
        levels_count_guards(all.drop_last());
    }
}

} // verus!
