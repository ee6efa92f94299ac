//! What the server has done since it started: counts, times and problems.

use vstd::prelude::*;

use crate::sorting::{key_values, indices, order, order_is_sorted, order_of};
use crate::table::{lemma_listed_insert, lemma_pairs_of, listed, pairs_of, to_map, Table};

verus! {

// ---------------------------------------------------------------------------
// Kinds
// ---------------------------------------------------------------------------

/// What answered a request.
#[derive(Debug, Clone, Copy, PartialEq, Eq, Structural)]
pub enum HandlerType {
    StaticFile,
    DirectoryListing,
    ScriptCgi,
    CgiBin,
    FrameworkProxy,
    HtaccessDenied,
}

/// The name of what answered a request.
pub open spec fn handler_label(h: HandlerType) -> Seq<char> {
    match h {
        HandlerType::StaticFile => "static file"@,
        HandlerType::DirectoryListing => "directory listing"@,
        HandlerType::ScriptCgi => "script/CGI"@,
        HandlerType::CgiBin => "cgi-bin/"@,
        HandlerType::FrameworkProxy => "framework proxy"@,
        HandlerType::HtaccessDenied => ".htaccess-denied"@,
    }
}

impl HandlerType {
    /// The name of what answered a request.
    pub fn label(self) -> (r: &'static str)
        ensures
            r@ == handler_label(self),
    {
        match self {
            HandlerType::StaticFile => "static file",
            HandlerType::DirectoryListing => "directory listing",
            HandlerType::ScriptCgi => "script/CGI",
            HandlerType::CgiBin => "cgi-bin/",
            HandlerType::FrameworkProxy => "framework proxy",
            HandlerType::HtaccessDenied => ".htaccess-denied",
        }
    }
}

/// What kind of problem was met.
#[derive(Debug, Clone, Copy, PartialEq, Eq, Structural)]
pub enum IssueKind {
    BrokenStaticRef,
    ScriptFailure,
    MissingInterpreter,
    MissingLanguageModule,
    FrameworkProxyError,
    AccessControlDenial,
    TlsIssue,
    ConfigReloadIssue,
}

/// The name of a kind of problem.
pub open spec fn issue_label(k: IssueKind) -> Seq<char> {
    match k {
        IssueKind::BrokenStaticRef => "broken static reference"@,
        IssueKind::ScriptFailure => "script/CGI failure"@,
        IssueKind::MissingInterpreter => "missing interpreter"@,
        IssueKind::MissingLanguageModule => "missing language module"@,
        IssueKind::FrameworkProxyError => "framework proxy error"@,
        IssueKind::AccessControlDenial => "access-control denial"@,
        IssueKind::TlsIssue => "TLS/certificate issue"@,
        IssueKind::ConfigReloadIssue => "config reload issue"@,
    }
}

impl IssueKind {
    /// The name of a kind of problem.
    pub fn label(self) -> (r: &'static str)
        ensures
            r@ == issue_label(self),
    {
        match self {
            IssueKind::BrokenStaticRef => "broken static reference",
            IssueKind::ScriptFailure => "script/CGI failure",
            IssueKind::MissingInterpreter => "missing interpreter",
            IssueKind::MissingLanguageModule => "missing language module",
            IssueKind::FrameworkProxyError => "framework proxy error",
            IssueKind::AccessControlDenial => "access-control denial",
            IssueKind::TlsIssue => "TLS/certificate issue",
            IssueKind::ConfigReloadIssue => "config reload issue",
        }
    }
}

// ---------------------------------------------------------------------------
// Counting
// ---------------------------------------------------------------------------

/// The sum of two counts, which starts over at zero where it grows too large.
pub open spec fn sum64(a: u64, b: u64) -> u64 {
    ((a + b) % 0x1_0000_0000_0000_0000) as u64
}

/// The sum of two counts, which starts over at zero where it grows too large.
pub fn wrap_sum(a: u64, b: u64) -> (r: u64)
    ensures
        r == sum64(a, b),
{
    let s: u128 = a as u128 + b as u128;
    (s % 0x1_0000_0000_0000_0000) as u64
}

/// The count of a key.
pub open spec fn count_of(m: Map<Seq<char>, u64>, k: Seq<char>) -> u64 {
    if m.contains_key(k) {
        m[k]
    } else {
        0
    }
}

/// Counts by key after one more.
pub open spec fn tallied(m: Map<Seq<char>, u64>, k: Seq<char>) -> Map<Seq<char>, u64> {
    m.insert(k, sum64(count_of(m, k), 1))
}

fn tally(t: &mut Table<u64>, k: &str)
    ensures
        final(t)@ == tallied(old(t)@, k@),
{
    let n: u64 = match t.get(k) {
        Some(c) => *c,
        None => 0,
    };
    t.insert(k, wrap_sum(n, 1));
}

/// Counts by number, in the order of the numbers, after one more.
pub open spec fn counted(list: Seq<(u64, u64)>, key: u64) -> Seq<(u64, u64)>
    decreases list.len(),
{
    if list.len() == 0 || list.last().0 < key {
        list.push((key, 1u64))
    } else if list.last().0 == key {
        list.drop_last().push((key, sum64(list.last().1, 1)))
    } else {
        counted(list.drop_last(), key).push(list.last())
    }
}

proof fn lemma_counted(list: Seq<(u64, u64)>, key: u64, at: int)
    requires
        0 <= at <= list.len(),
        at == 0 || list[at - 1].0 <= key,
        forall|i: int| at <= i < list.len() ==> (#[trigger] list[i]).0 > key,
    ensures
        counted(list, key) == (if at > 0 && list[at - 1].0 == key {
            list.update(at - 1, (key, sum64(list[at - 1].1, 1)))
        } else {
            list.insert(at, (key, 1u64))
        }),
    decreases list.len(),
{
    if at < list.len() {
        assert(list[list.len() - 1].0 > key);
        let head = list.drop_last();
        assert forall|i: int| at <= i < head.len() implies (#[trigger] head[i]).0 > key by {
            assert(head[i] == list[i]);
        }
        lemma_counted(head, key, at);
        if at > 0 && list[at - 1].0 == key {
            let e = (key, sum64(list[at - 1].1, 1));
            assert(head[at - 1] == list[at - 1]);
            assert(list.update(at - 1, e) =~= head.update(at - 1, e).push(list.last()));
        } else {
            let e = (key, 1u64);
            assert(at > 0 ==> head[at - 1] == list[at - 1]);
            assert(list.insert(at, e) =~= head.insert(at, e).push(list.last()));
        }
    } else if at > 0 && list[at - 1].0 == key {
        let e = (key, sum64(list[at - 1].1, 1));
        assert(list.update(at - 1, e) =~= list.drop_last().push(e));
    } else {
        assert(list.insert(at, (key, 1u64)) =~= list.push((key, 1u64)));
    }
}

fn count_in(list: &mut Vec<(u64, u64)>, key: u64)
    ensures
        final(list)@ == counted(old(list)@, key),
{
    let ghost all = list@;
    let mut at: usize = list.len();
    while at > 0 && list[at - 1].0 > key
        invariant
            at <= list@.len(),
            list@ == all,
            forall|i: int| at <= i < all.len() ==> (#[trigger] all[i]).0 > key,
        decreases at,
    {
        at = at - 1;
    }
    proof {
        lemma_counted(all, key, at as int);
    }
    if at > 0 && list[at - 1].0 == key {
        let c: u64 = list[at - 1].1;
        list.set(at - 1, (key, wrap_sum(c, 1)));
    } else {
        list.insert(at, (key, 1));
    }
}

/// The class of a status.
pub open spec fn class_of(status: u16) -> Seq<char> {
    if status / 100 == 2 {
        "2xx"@
    } else if status / 100 == 3 {
        "3xx"@
    } else if status / 100 == 4 {
        "4xx"@
    } else if status / 100 == 5 {
        "5xx"@
    } else {
        "other"@
    }
}

/// Whether a name is that of a class.
pub open spec fn is_class(name: Seq<char>) -> bool {
    exists|status: u16| #[trigger] class_of(status) == name
}

/// The class of a status.
pub fn status_class(status: u16) -> (r: &'static str)
    ensures
        r@ == class_of(status),
{
    let c: u16 = status / 100;
    if c == 2 {
        "2xx"
    } else if c == 3 {
        "3xx"
    } else if c == 4 {
        "4xx"
    } else if c == 5 {
        "5xx"
    } else {
        "other"
    }
}

// ---------------------------------------------------------------------------
// Rates
// ---------------------------------------------------------------------------

/// How many seconds the rate of requests looks back.
pub const RATE_WINDOW_SECS: u64 = 60;

/// The counts of the seconds that are not too long ago.
pub open spec fn recent(list: Seq<(u64, u64)>, now: u64) -> Seq<(u64, u64)>
    decreases list.len(),
{
    if list.len() == 0 {
        Seq::empty()
    } else {
        let rest = recent(list.drop_last(), now);
        if now - list.last().0 < RATE_WINDOW_SECS {
            rest.push(list.last())
        } else {
            rest
        }
    }
}

/// How many requests came in the seconds of the window that ends now.
pub open spec fn in_window(list: Seq<(u64, u64)>, now: u64) -> int
    decreases list.len(),
{
    if list.len() == 0 {
        0
    } else {
        let rest = in_window(list.drop_last(), now);
        if list.last().0 <= now && now - list.last().0 < RATE_WINDOW_SECS && list.last().0 > 0 {
            rest + list.last().1
        } else {
            rest
        }
    }
}

/// Requests by second.
pub struct RateWindow {
    /// How many came in each second.
    pub buckets: Vec<(u64, u64)>,
}

impl RateWindow {
    /// No requests.
    pub fn new() -> (r: RateWindow)
        ensures
            r.buckets@ == Seq::<(u64, u64)>::empty(),
    {
        RateWindow { buckets: Vec::new() }
    }

    /// Counts a request, and forgets the seconds that are too long ago.
    pub fn record(&mut self, now: u64)
        ensures
            final(self).buckets@ == recent(counted(old(self).buckets@, now), now),
    {
        count_in(&mut self.buckets, now);
        let ghost all = self.buckets@;
        let n: usize = self.buckets.len();
        let mut out: Vec<(u64, u64)> = Vec::new();
        let mut i: usize = 0;
        assert(all.take(0) =~= Seq::empty());
        while i < n
            invariant
                i <= n,
                n == self.buckets@.len(),
                all == self.buckets@,
                out@ == recent(all.take(i as int), now),
            decreases n - i,
        {
            assert(all.take(i + 1).drop_last() =~= all.take(i as int));
            let b: (u64, u64) = self.buckets[i];
            if b.0 >= now || now - b.0 < RATE_WINDOW_SECS {
                out.push(b);
            }
            i = i + 1;
        }
        assert(all.take(n as int) =~= all);
        self.buckets = out;
    }

    /// How many requests came in the window that ends now.
    pub fn total(&self, now: u64) -> (r: u128)
        ensures
            r == in_window(self.buckets@, now),
    {
        let ghost all = self.buckets@;
        let n: usize = self.buckets.len();
        let mut sum: u128 = 0;
        let mut i: usize = 0;
        assert(all.take(0) =~= Seq::empty());
        while i < n
            invariant
                i <= n,
                n == self.buckets@.len(),
                all == self.buckets@,
                sum == in_window(all.take(i as int), now),
                sum <= i * 0xffff_ffff_ffff_ffff,
            decreases n - i,
        {
            assert(all.take(i + 1).drop_last() =~= all.take(i as int));
            assert(all.take(i + 1).last() == all[i as int]);
            let b: (u64, u64) = self.buckets[i];
            assert(i * 0xffff_ffff_ffff_ffff + 0xffff_ffff_ffff_ffff <= u128::MAX)
                by (nonlinear_arith)
                requires
                    i < 0x1_0000_0000_0000_0000,
            ;
            assert((i + 1) * 0xffff_ffff_ffff_ffff == i * 0xffff_ffff_ffff_ffff
                + 0xffff_ffff_ffff_ffff) by (nonlinear_arith);
            if b.0 <= now && now - b.0 < RATE_WINDOW_SECS && b.0 > 0 {
                sum = sum + b.1 as u128;
            }
            i = i + 1;
        }
        assert(all.take(n as int) =~= all);
        sum
    }
}

// ---------------------------------------------------------------------------
// Paths
// ---------------------------------------------------------------------------

/// How many paths are counted at most.
pub const MAX_TRACKED_PATHS: usize = 1000;

/// The index of the least count, from a place on; the first of several.
pub open spec fn least(p: Seq<(Seq<char>, u64)>, i: int, best: int) -> int
    decreases p.len() - i,
{
    if i < 0 || i >= p.len() {
        best
    } else if p[i].1 < p[best].1 {
        least(p, i + 1, i)
    } else {
        least(p, i + 1, best)
    }
}

/// Counts by path after one more. Where there are too many paths, the one with
/// the least count makes room for a new one.
pub open spec fn path_counted(m: Map<Seq<char>, u64>, p: Seq<(Seq<char>, u64)>, path: Seq<char>) -> Map<
    Seq<char>,
    u64,
> {
    if m.contains_key(path) || p.len() < MAX_TRACKED_PATHS {
        tallied(m, path)
    } else {
        m.remove(p[least(p, 0, 0)].0).insert(path, 1)
    }
}

/// The paths with the highest counts, those with equal counts by their names.
pub open spec fn most(p: Seq<(Seq<char>, u64)>, n: int) -> Seq<(Seq<char>, u64)> {
    let o = order(p.map_values(|e: (Seq<char>, u64)| -(e.1 as int)));
    Seq::new(
        if n < p.len() {
            n as nat
        } else {
            p.len()
        },
        |i: int| p[o[i]],
    )
}

/// Counts by path, of a limited number of paths.
pub struct PathCounter {
    /// The counts.
    pub counts: Table<u64>,
}

impl PathCounter {
    /// No paths.
    pub fn new() -> (r: PathCounter)
        ensures
            r.counts@ == Map::<Seq<char>, u64>::empty(),
    {
        PathCounter { counts: Table::new() }
    }

    /// Counts a path.
    pub fn record(&mut self, path: &str)
        ensures
            final(self).counts@ == path_counted(
                old(self).counts@,
                pairs_of(old(self).counts@),
                path@,
            ),
    {
        let n: usize = self.counts.len();
        if self.counts.contains_key(path) || n < MAX_TRACKED_PATHS {
            tally(&mut self.counts, path);
            return;
        }
        let ghost p = self.counts.pairs();
        let mut best: usize = 0;
        let mut i: usize = 0;
        while i < n
            invariant
                i <= n,
                best < n,
                n == p.len(),
                p == self.counts.pairs(),
                least(p, 0, 0) == least(p, i as int, best as int),
            decreases n - i,
        {
            if *self.counts.value_at(i) < *self.counts.value_at(best) {
                best = i;
            }
            i = i + 1;
        }
        let gone = self.counts.key_at(best).clone();
        self.counts.remove(gone.as_str());
        self.counts.insert(path, 1);
    }

    /// The paths with the highest counts.
    pub fn top(&self, n: usize) -> (r: Vec<(String, u64)>)
        ensures
            r.deep_view() == most(pairs_of(self.counts@), n as int),
    {
        let total: usize = self.counts.len();
        let ghost p = self.counts.pairs();
        let ghost keys = p.map_values(|e: (Seq<char>, u64)| -(e.1 as int));
        let mut k: Vec<i128> = Vec::new();
        let mut i: usize = 0;
        while i < total
            invariant
                i <= total,
                total == p.len(),
                p == self.counts.pairs(),
                k@.len() == i,
                forall|j: int| 0 <= j < i ==> #[trigger] k@[j] == -(p[j].1 as int),
            decreases total - i,
        {
            let c: u64 = *self.counts.value_at(i);
            k.push(-(c as i128));
            i = i + 1;
        }
        assert(key_values(k@) =~= keys);
        let o = order_of(&k);
        let m: usize = if n < total {
            n
        } else {
            total
        };
        let mut out: Vec<(String, u64)> = Vec::new();
        let mut j: usize = 0;
        while j < m
            invariant
                j <= m,
                m <= total,
                total == p.len(),
                p == self.counts.pairs(),
                o@.len() == total,
                forall|x: int| 0 <= x < o@.len() ==> o@[x] < total,
                out@.len() == j,
                forall|x: int|
                    0 <= x < j ==> (#[trigger] out@[x]).0@ == p[o@[x] as int].0 && out@[x].1
                        == p[o@[x] as int].1,
            decreases m - j,
        {
            let x: usize = o[j];
            out.push((self.counts.key_at(x).clone(), *self.counts.value_at(x)));
            j = j + 1;
        }
        assert(indices(o@).len() == total);
        assert(out.deep_view() =~= most(p, n as int)) by {
            assert forall|x: int| 0 <= x < m implies #[trigger] out.deep_view()[x] == most(
                p,
                n as int,
            )[x] by {
                assert(out.deep_view()[x] == (out@[x].0@, out@[x].1));
                assert(indices(o@)[x] == o@[x] as int);
            }
        }
        out
    }
}

// ---------------------------------------------------------------------------
// Times
// ---------------------------------------------------------------------------

/// How many times are kept at most.
pub const MAX_LATENCY_SAMPLES: usize = 256;

/// How long one way of answering took.
pub struct HandlerStats {
    /// How often.
    pub count: u64,
    /// The sum of the times, in milliseconds.
    pub total_ms: u64,
    /// The shortest time.
    pub min_ms: u64,
    /// The longest time.
    pub max_ms: u64,
    /// The latest times.
    pub samples: Vec<u64>,
}

/// How long one way of answering took.
pub struct HandlerStatsView {
    pub count: u64,
    pub total_ms: u64,
    pub min_ms: u64,
    pub max_ms: u64,
    pub samples: Seq<u64>,
}

impl DeepView for HandlerStats {
    type V = HandlerStatsView;

    open spec fn deep_view(&self) -> HandlerStatsView {
        HandlerStatsView {
            count: self.count,
            total_ms: self.total_ms,
            min_ms: self.min_ms,
            max_ms: self.max_ms,
            samples: self.samples@,
        }
    }
}

/// Nothing answered yet.
pub open spec fn no_times() -> HandlerStatsView {
    HandlerStatsView {
        count: 0,
        total_ms: 0,
        min_ms: u64::MAX,
        max_ms: 0,
        samples: Seq::empty(),
    }
}

/// Items with one more at the end, of which only so many of the latest stay.
pub open spec fn kept<T>(s: Seq<T>, limit: int, x: T) -> Seq<T> {
    if s.len() >= limit {
        s.remove(0).push(x)
    } else {
        s.push(x)
    }
}

/// Times after one more.
pub open spec fn timed(h: HandlerStatsView, ms: u64) -> HandlerStatsView {
    HandlerStatsView {
        count: sum64(h.count, 1),
        total_ms: sum64(h.total_ms, ms),
        min_ms: if ms < h.min_ms {
            ms
        } else {
            h.min_ms
        },
        max_ms: if ms > h.max_ms {
            ms
        } else {
            h.max_ms
        },
        samples: kept(h.samples, MAX_LATENCY_SAMPLES as int, ms),
    }
}

/// The mean time.
pub open spec fn mean(h: HandlerStatsView) -> u64 {
    if h.count == 0 {
        0
    } else {
        h.total_ms / h.count
    }
}

/// Which of the times in ascending order stands at a percentage, rounded to the
/// nearest.
pub open spec fn rank(n: int, percent: int) -> int {
    (2 * (n - 1) * percent + 100) / 200
}

/// The time below which a percentage of the times lies.
pub open spec fn percentile_of(s: Seq<u64>, percent: int) -> u64 {
    if s.len() == 0 {
        0
    } else {
        s[order(s.map_values(|x: u64| x as int))[rank(s.len() as int, percent)]]
    }
}

impl HandlerStats {
    /// Nothing answered yet.
    pub fn new() -> (r: HandlerStats)
        ensures
            r.deep_view() == no_times(),
    {
        let samples: Vec<u64> = Vec::new();
        assert(samples@ =~= Seq::empty());
        HandlerStats { count: 0, total_ms: 0, min_ms: u64::MAX, max_ms: 0, samples }
    }

    /// Counts an answer and its time.
    pub fn record(&mut self, ms: u64)
        ensures
            final(self).deep_view() == timed(old(self).deep_view(), ms),
    {
        self.count = wrap_sum(self.count, 1);
        self.total_ms = wrap_sum(self.total_ms, ms);
        if ms < self.min_ms {
            self.min_ms = ms;
        }
        if ms > self.max_ms {
            self.max_ms = ms;
        }
        if self.samples.len() >= MAX_LATENCY_SAMPLES {
            let _ = self.samples.remove(0);
        }
        self.samples.push(ms);
    }

    /// The mean time.
    pub fn avg_ms(&self) -> (r: u64)
        ensures
            r == mean(self.deep_view()),
    {
        if self.count == 0 {
            0
        } else {
            self.total_ms / self.count
        }
    }

    /// The time below which a percentage of the latest times lies.
    pub fn percentile(&self, percent: u64) -> (r: u64)
        requires
            percent <= 100,
            self.samples@.len() <= MAX_LATENCY_SAMPLES,
        ensures
            r == percentile_of(self.samples@, percent as int),
    {
        let n: usize = self.samples.len();
        if n == 0 {
            return 0;
        }
        let ghost s = self.samples@;
        let ghost keys = s.map_values(|x: u64| x as int);
        let mut k: Vec<i128> = Vec::new();
        let mut i: usize = 0;
        while i < n
            invariant
                i <= n,
                n == s.len(),
                s == self.samples@,
                k@.len() == i,
                forall|j: int| 0 <= j < i ==> #[trigger] k@[j] == s[j],
            decreases n - i,
        {
            k.push(self.samples[i] as i128);
            i = i + 1;
        }
        assert(key_values(k@) =~= keys);
        let o = order_of(&k);
        let m: u64 = n as u64 - 1;
        assert(2 * m * percent <= 2 * m * 100) by (nonlinear_arith)
            requires
                percent <= 100,
        ;
        let at: u64 = (2 * m * percent + 100) / 200;
        assert(2 * (n - 1) * percent == 2 * m * percent);
        assert(indices(o@)[at as int] == o@[at as int] as int);
        self.samples[o[at as usize]]
    }
}

// ---------------------------------------------------------------------------
// Problems
// ---------------------------------------------------------------------------

/// How many groups of problems are kept at most.
pub const MAX_ISSUE_GROUPS: usize = 200;

/// How many occurrences of a problem are kept at most.
pub const MAX_OCCURRENCES_PER_GROUP: usize = 20;

/// One occurrence of a problem.
#[derive(Debug)]
pub struct Occurrence {
    /// When, in seconds since 1970.
    pub unix_secs: u64,
    /// The method of the request.
    pub method: String,
    /// The path of the request.
    pub path: String,
    /// What the path led to.
    pub target: String,
    /// The status of the answer.
    pub status: u16,
    /// The page that led to the request.
    pub referer: Option<String>,
}

/// One occurrence of a problem.
pub struct OccurrenceView {
    pub unix_secs: u64,
    pub method: Seq<char>,
    pub path: Seq<char>,
    pub target: Seq<char>,
    pub status: u16,
    pub referer: Option<Seq<char>>,
}

impl DeepView for Occurrence {
    type V = OccurrenceView;

    open spec fn deep_view(&self) -> OccurrenceView {
        OccurrenceView {
            unix_secs: self.unix_secs,
            method: self.method@,
            path: self.path@,
            target: self.target@,
            status: self.status,
            referer: self.referer.deep_view(),
        }
    }
}

/// The occurrences of one problem: those of one kind, with one path and one
/// cause.
#[derive(Debug)]
pub struct IssueGroup {
    /// The kind.
    pub kind: IssueKind,
    /// The path.
    pub path: String,
    /// The cause.
    pub cause: String,
    /// How often it was met.
    pub count: u64,
    /// When it was met last.
    pub last_seen: u64,
    /// The latest occurrences.
    pub occurrences: Vec<Occurrence>,
}

/// The occurrences of one problem.
#[verifier::ext_equal]
pub struct IssueGroupView {
    pub kind: IssueKind,
    pub path: Seq<char>,
    pub cause: Seq<char>,
    pub count: u64,
    pub last_seen: u64,
    pub occurrences: Seq<OccurrenceView>,
}

impl DeepView for IssueGroup {
    type V = IssueGroupView;

    open spec fn deep_view(&self) -> IssueGroupView {
        IssueGroupView {
            kind: self.kind,
            path: self.path@,
            cause: self.cause@,
            count: self.count,
            last_seen: self.last_seen,
            occurrences: self.occurrences.deep_view(),
        }
    }
}

/// Where the group of a problem stands, from a place on; or the end.
pub open spec fn group_at(
    g: Seq<IssueGroupView>,
    i: int,
    kind: IssueKind,
    path: Seq<char>,
    cause: Seq<char>,
) -> int
    decreases g.len() - i,
{
    if i < 0 || i >= g.len() {
        g.len() as int
    } else if g[i].kind == kind && g[i].path == path && g[i].cause == cause {
        i
    } else {
        group_at(g, i + 1, kind, path, cause)
    }
}

/// The group that was met last the longest time ago, from a place on; the first
/// of several.
pub open spec fn oldest(g: Seq<IssueGroupView>, i: int, best: int) -> int
    decreases g.len() - i,
{
    if i < 0 || i >= g.len() {
        best
    } else if g[i].last_seen < g[best].last_seen {
        oldest(g, i + 1, i)
    } else {
        oldest(g, i + 1, best)
    }
}

/// A group after one more occurrence.
pub open spec fn grown(g: IssueGroupView, o: OccurrenceView) -> IssueGroupView {
    IssueGroupView {
        kind: g.kind,
        path: g.path,
        cause: g.cause,
        count: sum64(g.count, 1),
        last_seen: o.unix_secs,
        occurrences: kept(g.occurrences, MAX_OCCURRENCES_PER_GROUP as int, o),
    }
}

/// A group with its first occurrence.
pub open spec fn new_group(
    kind: IssueKind,
    path: Seq<char>,
    cause: Seq<char>,
    o: OccurrenceView,
) -> IssueGroupView {
    IssueGroupView {
        kind,
        path,
        cause,
        count: 1,
        last_seen: o.unix_secs,
        occurrences: seq![o],
    }
}

/// The groups after one more occurrence. Where there are too many, the one that
/// was met last the longest time ago makes room for a new one.
pub open spec fn recorded(
    g: Seq<IssueGroupView>,
    kind: IssueKind,
    path: Seq<char>,
    cause: Seq<char>,
    o: OccurrenceView,
) -> Seq<IssueGroupView> {
    let i = group_at(g, 0, kind, path, cause);
    if i < g.len() {
        g.update(i, grown(g[i], o))
    } else if g.len() >= MAX_ISSUE_GROUPS {
        g.remove(oldest(g, 0, 0)).push(new_group(kind, path, cause, o))
    } else {
        g.push(new_group(kind, path, cause, o))
    }
}

/// The problems that were met.
pub struct IssueList {
    /// The groups.
    pub groups: Vec<IssueGroup>,
}

pub proof fn lemma_group_at(
    g: Seq<IssueGroupView>,
    i: int,
    kind: IssueKind,
    path: Seq<char>,
    cause: Seq<char>,
)
    requires
        0 <= i <= g.len(),
    ensures
        i <= group_at(g, i, kind, path, cause) <= g.len(),
    decreases g.len() - i,
{
    if i < g.len() {
        lemma_group_at(g, i + 1, kind, path, cause);
    }
}

/// An answered request, as it is counted.
pub struct Answered {
    pub method: Seq<char>,
    pub path: Seq<char>,
    pub status: u16,
    pub sent: u64,
    pub received: u64,
}

/// What is counted of all answered requests.
pub struct Totals {
    pub requests: u64,
    pub sent: u64,
    pub received: u64,
    pub by_method: Map<Seq<char>, u64>,
    pub by_status: Seq<(u64, u64)>,
    pub by_class: Map<Seq<char>, u64>,
    pub paths: Map<Seq<char>, u64>,
    pub error_paths: Map<Seq<char>, u64>,
}

/// What is counted after one more answered request.
pub open spec fn with_answer(t: Totals, a: Answered) -> Totals {
    Totals {
        requests: sum64(t.requests, 1),
        sent: sum64(t.sent, a.sent),
        received: sum64(t.received, a.received),
        by_method: tallied(t.by_method, a.method),
        by_status: counted(t.by_status, a.status as u64),
        by_class: tallied(t.by_class, class_of(a.status)),
        paths: path_counted(t.paths, pairs_of(t.paths), a.path),
        error_paths: if a.status >= 400 {
            path_counted(t.error_paths, pairs_of(t.error_paths), a.path)
        } else {
            t.error_paths
        },
    }
}

impl IssueList {
    /// No problems.
    pub fn new() -> (r: IssueList)
        ensures
            r.groups.deep_view() == Seq::<IssueGroupView>::empty(),
    {
        let groups: Vec<IssueGroup> = Vec::new();
        assert(groups.deep_view() =~= Seq::<IssueGroupView>::empty());
        IssueList { groups }
    }

    /// Where the group of a problem stands.
    fn position(&self, kind: IssueKind, path: &str, cause: &str) -> (r: usize)
        ensures
            r == group_at(self.groups.deep_view(), 0, kind, path@, cause@),
            r <= self.groups@.len(),
    {
        let ghost g = self.groups.deep_view();
        let n: usize = self.groups.len();
        let mut i: usize = 0;
        while i < n
            invariant
                i <= n,
                n == self.groups@.len(),
                g == self.groups.deep_view(),
                group_at(g, 0, kind, path@, cause@) == group_at(g, i as int, kind, path@, cause@),
            decreases n - i,
        {
            assert(g[i as int] == self.groups@[i as int].deep_view());
            let e = &self.groups[i];
            if e.kind == kind && e.path.as_str().eq(path) && e.cause.as_str().eq(cause) {
                return i;
            }
            i = i + 1;
        }
        n
    }

    /// Adds an occurrence of a problem.
    pub fn record(&mut self, kind: IssueKind, path: &str, cause: &str, occ: Occurrence)
        ensures
            final(self).groups.deep_view() == recorded(
                old(self).groups.deep_view(),
                kind,
                path@,
                cause@,
                occ.deep_view(),
            ),
    {
        let ghost g = self.groups.deep_view();
        let ghost o = occ.deep_view();
        let at: usize = self.position(kind, path, cause);
        let n: usize = self.groups.len();
        if at < n {
            let mut group = self.groups.remove(at);
            let ghost was = group.deep_view();
            assert(was == g[at as int]);
            let secs: u64 = occ.unix_secs;
            let mut list: Vec<Occurrence> = Vec::new();
            std::mem::swap(&mut list, &mut group.occurrences);
            let ghost before = list.deep_view();
            if list.len() >= MAX_OCCURRENCES_PER_GROUP {
                let _ = list.remove(0);
                assert(list.deep_view() =~= before.remove(0));
            }
            let ghost shorter = list.deep_view();
            list.push(occ);
            assert(list.deep_view() =~= shorter.push(o));
            let fresh = IssueGroup {
                kind: group.kind,
                path: group.path,
                cause: group.cause,
                count: wrap_sum(group.count, 1),
                last_seen: secs,
                occurrences: list,
            };
            assert(fresh.deep_view() == grown(was, o));
            self.groups.insert(at, fresh);
            assert(self.groups.deep_view() =~= g.update(at as int, grown(was, o)));
            return;
        }
        if n >= MAX_ISSUE_GROUPS {
            let mut best: usize = 0;
            let mut i: usize = 0;
            while i < n
                invariant
                    i <= n,
                    best < n,
                    n == self.groups@.len(),
                    g == self.groups.deep_view(),
                    oldest(g, 0, 0) == oldest(g, i as int, best as int),
                decreases n - i,
            {
                assert(g[i as int] == self.groups@[i as int].deep_view());
                assert(g[best as int] == self.groups@[best as int].deep_view());
                if self.groups[i].last_seen < self.groups[best].last_seen {
                    best = i;
                }
                i = i + 1;
            }
            let _ = self.groups.remove(best);
            assert(self.groups.deep_view() =~= g.remove(best as int));
        }
        let ghost room = self.groups.deep_view();
        let secs: u64 = occ.unix_secs;
        let mut list: Vec<Occurrence> = Vec::new();
        list.push(occ);
        assert(list.deep_view() =~= seq![o]);
        let fresh = IssueGroup {
            kind,
            path: path.to_owned(),
            cause: cause.to_owned(),
            count: 1,
            last_seen: secs,
            occurrences: list,
        };
        assert(fresh.deep_view() == new_group(kind, path@, cause@, o));
        self.groups.push(fresh);
        assert(self.groups.deep_view() =~= room.push(new_group(kind, path@, cause@, o)));
    }
}

// ---------------------------------------------------------------------------
// Everything together
// ---------------------------------------------------------------------------

/// What the server has done since it started.
pub struct Stats {
    /// When it started, in seconds since 1970.
    pub start_wall_secs: u64,
    /// How children are kept in check.
    pub sandboxing_posture: String,
    /// The process of the development server, or zero.
    pub proxy_child_pid: i32,
    /// Requests that are being answered.
    pub in_flight: i64,
    /// Requests that the development server is answering.
    pub active_upstream: i64,
    /// Requests so far.
    pub total_requests: u64,
    /// Bytes sent so far.
    pub bytes_sent: u64,
    /// Bytes received so far.
    pub bytes_received: u64,
    /// Requests by method.
    pub by_method: Table<u64>,
    /// Requests by status, in the order of the statuses.
    pub by_status: Vec<(u64, u64)>,
    /// Requests by class of status.
    pub by_class: Table<u64>,
    /// Times by what answered.
    pub by_handler: Vec<(HandlerType, HandlerStats)>,
    /// Requests by path.
    pub top_paths: PathCounter,
    /// Failed requests by path.
    pub top_error_paths: PathCounter,
    /// Requests by second.
    pub rate: RateWindow,
    /// Problems.
    pub issues: IssueList,
}

/// Where the times of one way of answering stand, from a place on; or the end.
pub open spec fn handler_at(
    l: Seq<(HandlerType, HandlerStats)>,
    i: int,
    h: HandlerType,
) -> int
    decreases l.len() - i,
{
    if i < 0 || i >= l.len() {
        l.len() as int
    } else if l[i].0 == h {
        i
    } else {
        handler_at(l, i + 1, h)
    }
}

/// The times of one way of answering.
pub open spec fn times_of(l: Seq<(HandlerType, HandlerStats)>, h: HandlerType) -> Option<
    HandlerStatsView,
> {
    let i = handler_at(l, 0, h);
    if i < l.len() {
        Some(l[i].1.deep_view())
    } else {
        None
    }
}

proof fn lemma_handler_at(l: Seq<(HandlerType, HandlerStats)>, i: int, h: HandlerType)
    requires
        0 <= i <= l.len(),
    ensures
        i <= handler_at(l, i, h) <= l.len(),
        handler_at(l, i, h) < l.len() ==> l[handler_at(l, i, h)].0 == h,
        forall|j: int| i <= j < handler_at(l, i, h) ==> (#[trigger] l[j]).0 != h,
    decreases l.len() - i,
{
    if i < l.len() && l[i].0 != h {
        lemma_handler_at(l, i + 1, h);
    }
}

/// The first place of a way of answering is where it stands.
proof fn lemma_handler_is(l: Seq<(HandlerType, HandlerStats)>, i: int, h: HandlerType, at: int)
    requires
        0 <= i <= at <= l.len(),
        at < l.len() ==> l[at].0 == h,
        forall|j: int| i <= j < at ==> (#[trigger] l[j]).0 != h,
    ensures
        handler_at(l, i, h) == at,
    decreases at - i,
{
    if i < at {
        assert(l[i].0 != h);
        lemma_handler_is(l, i + 1, h, at);
    }
}

impl Stats {
    /// Whether no more times are kept than there may be, and the classes that are
    /// counted are classes.
    pub open spec fn wf(&self) -> bool {
        &&& forall|i: int|
            0 <= i < self.by_handler@.len() ==> (#[trigger] self.by_handler@[i]).1.samples@.len()
                <= MAX_LATENCY_SAMPLES
        &&& listed(self.by_class@)
        &&& forall|k: Seq<char>| #[trigger] self.by_class@.contains_key(k) ==> is_class(k)
    }

    /// What is counted of all answered requests.
    pub open spec fn totals(&self) -> Totals {
        Totals {
            requests: self.total_requests,
            sent: self.bytes_sent,
            received: self.bytes_received,
            by_method: self.by_method@,
            by_status: self.by_status@,
            by_class: self.by_class@,
            paths: self.top_paths.counts@,
            error_paths: self.top_error_paths.counts@,
        }
    }

    /// Nothing done yet.
    pub fn new(sandboxing_posture: &str, now: u64) -> (r: Stats)
        ensures
            r.wf(),
            r.start_wall_secs == now,
            r.sandboxing_posture@ == sandboxing_posture@,
            r.proxy_child_pid == 0,
            r.in_flight == 0,
            r.active_upstream == 0,
            r.total_requests == 0,
            r.bytes_sent == 0,
            r.bytes_received == 0,
            r.by_method@ == Map::<Seq<char>, u64>::empty(),
            r.by_status@ == Seq::<(u64, u64)>::empty(),
            r.by_class@ == Map::<Seq<char>, u64>::empty(),
            r.by_handler@.len() == 0,
            r.top_paths.counts@ == Map::<Seq<char>, u64>::empty(),
            r.top_error_paths.counts@ == Map::<Seq<char>, u64>::empty(),
            r.rate.buckets@ == Seq::<(u64, u64)>::empty(),
            r.issues.groups.deep_view() == Seq::<IssueGroupView>::empty(),
    {
        proof {
            lemma_pairs_of(Seq::<(Seq<char>, u64)>::empty());
            assert(to_map(Seq::<(Seq<char>, u64)>::empty()) == Map::<Seq<char>, u64>::empty());
        }
        Stats {
            start_wall_secs: now,
            sandboxing_posture: sandboxing_posture.to_owned(),
            proxy_child_pid: 0,
            in_flight: 0,
            active_upstream: 0,
            total_requests: 0,
            bytes_sent: 0,
            bytes_received: 0,
            by_method: Table::new(),
            by_status: Vec::new(),
            by_class: Table::new(),
            by_handler: Vec::new(),
            top_paths: PathCounter::new(),
            top_error_paths: PathCounter::new(),
            rate: RateWindow::new(),
            issues: IssueList::new(),
        }
    }

    /// Notes the process of the development server.
    pub fn set_proxy_child_pid(&mut self, pid: u32)
        ensures
            *final(self) == (Stats { proxy_child_pid: pid as i32, ..*old(self) }),
    {
        self.proxy_child_pid = pid as i32;
    }

    /// Requests so far.
    pub fn total_requests(&self) -> (r: u64)
        ensures
            r == self.total_requests,
    {
        self.total_requests
    }

    /// Notes that a request is being answered. What is returned is given back
    /// when it has been.
    pub fn in_flight_guard(&mut self) -> (r: InFlightGuard)
        ensures
            *final(self) == (Stats { in_flight: next_level(old(self).in_flight), ..*old(self) }),
    {
        self.in_flight = raise(self.in_flight);
        InFlightGuard { taken: true }
    }

    /// Notes that the development server is answering a request. What is
    /// returned is given back when it has.
    pub fn upstream_guard(&mut self) -> (r: UpstreamGuard)
        ensures
            *final(self) == (Stats {
                active_upstream: next_level(old(self).active_upstream),
                ..*old(self)
            }),
    {
        self.active_upstream = raise(self.active_upstream);
        UpstreamGuard { taken: true }
    }

    /// Counts an answered request.
    pub fn record_totals(
        &mut self,
        method: &str,
        path: &str,
        status: u16,
        bytes_sent: u64,
        bytes_received: u64,
        now: u64,
    )
        ensures
            final(self).start_wall_secs == old(self).start_wall_secs,
            final(self).sandboxing_posture == old(self).sandboxing_posture,
            final(self).proxy_child_pid == old(self).proxy_child_pid,
            final(self).in_flight == old(self).in_flight,
            final(self).active_upstream == old(self).active_upstream,
            final(self).totals() == with_answer(
                old(self).totals(),
                Answered {
                    method: method@,
                    path: path@,
                    status,
                    sent: bytes_sent,
                    received: bytes_received,
                },
            ),
            final(self).by_handler == old(self).by_handler,
            final(self).rate.buckets@ == recent(counted(old(self).rate.buckets@, now), now),
            final(self).issues == old(self).issues,
            old(self).wf() ==> final(self).wf(),
    {
        proof {
            if self.wf() {
                let k = class_of(status);
                lemma_listed_insert(self.by_class@, k, sum64(count_of(self.by_class@, k), 1));
            }
        }
        self.total_requests = wrap_sum(self.total_requests, 1);
        self.bytes_sent = wrap_sum(self.bytes_sent, bytes_sent);
        self.bytes_received = wrap_sum(self.bytes_received, bytes_received);
        tally(&mut self.by_method, method);
        count_in(&mut self.by_status, status as u64);
        tally(&mut self.by_class, status_class(status));
        self.rate.record(now);
        self.top_paths.record(path);
        if status >= 400 {
            self.top_error_paths.record(path);
        }
    }

    /// Counts what answered a request, and how many milliseconds it took.
    pub fn record_handler(&mut self, handler: HandlerType, ms: u64)
        requires
            old(self).wf(),
        ensures
            final(self).wf(),
            *final(self) == (Stats { by_handler: final(self).by_handler, ..*old(self) }),
            times_of(final(self).by_handler@, handler) == Some(
                timed(
                    match times_of(old(self).by_handler@, handler) {
                        Some(t) => t,
                        None => no_times(),
                    },
                    ms,
                ),
            ),
            forall|h: HandlerType|
                h != handler ==> #[trigger] times_of(final(self).by_handler@, h) == times_of(
                    old(self).by_handler@,
                    h,
                ),
    {
        let ghost l = self.by_handler@;
        let n: usize = self.by_handler.len();
        let mut at: usize = 0;
        while at < n && self.by_handler[at].0 != handler
            invariant
                at <= n,
                n == l.len(),
                l == self.by_handler@,
                forall|j: int| 0 <= j < at ==> (#[trigger] l[j]).0 != handler,
            decreases n - at,
        {
            at = at + 1;
        }
        proof {
            lemma_handler_is(l, 0, handler, at as int);
        }
        let mut times = HandlerStats::new();
        if at < n {
            times = self.by_handler.remove(at).1;
        }
        times.record(ms);
        self.by_handler.insert(at, (handler, times));
        proof {
            let m = self.by_handler@;
            assert forall|j: int| 0 <= j < m.len() && j != at implies #[trigger] m[j] == l[j] by {}
            lemma_handler_is(m, 0, handler, at as int);
            assert forall|h: HandlerType| h != handler implies #[trigger] times_of(m, h)
                == times_of(l, h) by {
                lemma_handler_at(l, 0, h);
                let k = handler_at(l, 0, h);
                assert(k < l.len() ==> l[k].0 == h);
                if k < l.len() {
                    assert(m[k] == l[k]);
                    lemma_handler_is(m, 0, h, k);
                } else {
                    assert forall|j: int| 0 <= j < m.len() implies (#[trigger] m[j]).0 != h by {
                        if j != at {
                            assert(m[j] == l[j]);
                        }
                    }
                    lemma_handler_is(m, 0, h, m.len() as int);
                }
            }
        }
    }

    /// Notes a problem.
    pub fn record_issue(
        &mut self,
        kind: IssueKind,
        path: &str,
        cause: &str,
        method: &str,
        target: &str,
        status: u16,
        referer: Option<String>,
        now: u64,
    )
        ensures
            *final(self) == (Stats { issues: final(self).issues, ..*old(self) }),
            final(self).issues.groups.deep_view() == recorded(
                old(self).issues.groups.deep_view(),
                kind,
                path@,
                cause@,
                OccurrenceView {
                    unix_secs: now,
                    method: method@,
                    path: path@,
                    target: target@,
                    status,
                    referer: referer.deep_view(),
                },
            ),
    {
        let occ = Occurrence {
            unix_secs: now,
            method: method.to_owned(),
            path: path.to_owned(),
            target: target.to_owned(),
            status,
            referer,
        };
        self.issues.record(kind, path, cause, occ);
    }
}

/// A level raised by one; the highest one is followed by the lowest.
pub open spec fn next_level(n: i64) -> i64 {
    if n == i64::MAX {
        i64::MIN
    } else {
        (n + 1) as i64
    }
}

/// A level lowered by one; the lowest one is followed by the highest.
pub open spec fn previous_level(n: i64) -> i64 {
    if n == i64::MIN {
        i64::MAX
    } else {
        (n - 1) as i64
    }
}

fn raise(n: i64) -> (r: i64)
    ensures
        r == next_level(n),
{
    if n == i64::MAX {
        i64::MIN
    } else {
        n + 1
    }
}

fn lower_level(n: i64) -> (r: i64)
    ensures
        r == previous_level(n),
{
    if n == i64::MIN {
        i64::MAX
    } else {
        n - 1
    }
}

/// Stands for a request that is being answered.
#[derive(Debug)]
pub struct InFlightGuard {
    taken: bool,
}

impl InFlightGuard {
    /// Notes that the request has been answered.
    pub fn release(self, stats: &mut Stats)
        ensures
            *final(stats) == (Stats {
                in_flight: previous_level(old(stats).in_flight),
                ..*old(stats)
            }),
    {
        stats.in_flight = lower_level(stats.in_flight);
    }
}

/// Stands for a request that the development server is answering.
#[derive(Debug)]
pub struct UpstreamGuard {
    taken: bool,
}

impl UpstreamGuard {
    /// Notes that the development server has answered.
    pub fn release(self, stats: &mut Stats)
        ensures
            *final(stats) == (Stats {
                active_upstream: previous_level(old(stats).active_upstream),
                ..*old(stats)
            }),
    {
        stats.active_upstream = lower_level(stats.active_upstream);
    }
}

// ---------------------------------------------------------------------------
// Laws
// ---------------------------------------------------------------------------

/// Giving a guard back undoes taking it, at every level.
pub proof fn guards_balance(n: i64)
    ensures
        previous_level(next_level(n)) == n,
        next_level(previous_level(n)) == n,
{
}

/// There are never more groups of problems, nor more occurrences in one, than
/// there may be.
pub proof fn issues_stay_bounded(
    g: Seq<IssueGroupView>,
    kind: IssueKind,
    path: Seq<char>,
    cause: Seq<char>,
    o: OccurrenceView,
)
    requires
        g.len() <= MAX_ISSUE_GROUPS,
        forall|i: int|
            0 <= i < g.len() ==> (#[trigger] g[i]).occurrences.len() <= MAX_OCCURRENCES_PER_GROUP,
    ensures
        recorded(g, kind, path, cause, o).len() <= MAX_ISSUE_GROUPS,
        forall|i: int|
            0 <= i < recorded(g, kind, path, cause, o).len() ==> (#[trigger] recorded(
                g,
                kind,
                path,
                cause,
                o,
            )[i]).occurrences.len() <= MAX_OCCURRENCES_PER_GROUP,
{
    lemma_group_at(g, 0, kind, path, cause);
    if g.len() > 0 {
        lemma_oldest(g, 0, 0);
    }
}

pub proof fn lemma_oldest(g: Seq<IssueGroupView>, i: int, best: int)
    requires
        0 <= best < g.len(),
        0 <= i <= g.len(),
        forall|j: int| 0 <= j < i ==> g[best].last_seen <= (#[trigger] g[j]).last_seen,
    ensures
        0 <= oldest(g, i, best) < g.len(),
        forall|j: int|
            0 <= j < g.len() ==> g[oldest(g, i, best)].last_seen <= (#[trigger] g[j]).last_seen,
    decreases g.len() - i,
{
    if i < g.len() {
        if g[i].last_seen < g[best].last_seen {
            lemma_oldest(g, i + 1, i);
        } else {
            lemma_oldest(g, i + 1, best);
        }
    }
}

/// A problem that was met before makes no new group: its group counts it.
pub proof fn problems_are_grouped(
    g: Seq<IssueGroupView>,
    kind: IssueKind,
    path: Seq<char>,
    cause: Seq<char>,
    o: OccurrenceView,
    p: OccurrenceView,
)
    requires
        g.len() < MAX_ISSUE_GROUPS,
    ensures
        ({
            let once = recorded(g, kind, path, cause, o);
            let twice = recorded(once, kind, path, cause, p);
            let i = group_at(once, 0, kind, path, cause);
            &&& twice.len() == once.len()
            &&& i < once.len()
            &&& twice[i].count == sum64(once[i].count, 1)
            &&& twice[i].last_seen == p.unix_secs
        }),
{
    let once = recorded(g, kind, path, cause, o);
    let i = group_at(g, 0, kind, path, cause);
    lemma_group_at(g, 0, kind, path, cause);
    lemma_first_group(g, 0, kind, path, cause);
    lemma_first_group_is(once, 0, i, kind, path, cause);
}

pub proof fn lemma_first_group(
    g: Seq<IssueGroupView>,
    i: int,
    kind: IssueKind,
    path: Seq<char>,
    cause: Seq<char>,
)
    requires
        0 <= i <= g.len(),
    ensures
        forall|j: int|
            i <= j < group_at(g, i, kind, path, cause) ==> !((#[trigger] g[j]).kind == kind
                && g[j].path == path && g[j].cause == cause),
        group_at(g, i, kind, path, cause) < g.len() ==> ({
            let e = g[group_at(g, i, kind, path, cause)];
            e.kind == kind && e.path == path && e.cause == cause
        }),
    decreases g.len() - i,
{
    if i < g.len() && !(g[i].kind == kind && g[i].path == path && g[i].cause == cause) {
        lemma_first_group(g, i + 1, kind, path, cause);
    }
}

pub proof fn lemma_first_group_is(
    g: Seq<IssueGroupView>,
    i: int,
    at: int,
    kind: IssueKind,
    path: Seq<char>,
    cause: Seq<char>,
)
    requires
        0 <= i <= at < g.len(),
        g[at].kind == kind,
        g[at].path == path,
        g[at].cause == cause,
        forall|j: int|
            i <= j < at ==> !((#[trigger] g[j]).kind == kind && g[j].path == path && g[j].cause
                == cause),
    ensures
        group_at(g, i, kind, path, cause) == at,
    decreases at - i,
{
    if i < at {
        lemma_first_group_is(g, i + 1, at, kind, path, cause);
    }
}

/// Where room has to be made, no group that stays was met last before the one
/// that goes.
pub proof fn the_oldest_group_goes(g: Seq<IssueGroupView>)
    requires
        g.len() > 0,
    ensures
        0 <= oldest(g, 0, 0) < g.len(),
        forall|j: int|
            0 <= j < g.len() ==> g[oldest(g, 0, 0)].last_seen <= (#[trigger] g[j]).last_seen,
{
    lemma_oldest(g, 0, 0);
}

/// The paths with the highest counts come first, and none that is left out has a
/// higher count than one that is shown.
pub proof fn hot_paths_are_the_hottest(p: Seq<(Seq<char>, u64)>, n: int)
    requires
        n >= 0,
    ensures
        ({
            let m = most(p, n);
            let o = order(p.map_values(|e: (Seq<char>, u64)| -(e.1 as int)));
            &&& m.len() <= n
            &&& forall|i: int, j: int|
                0 <= i < j < m.len() ==> (#[trigger] m[i]).1 >= (#[trigger] m[j]).1
            &&& forall|i: int, j: int|
                0 <= i < m.len() && m.len() <= j < p.len() ==> (#[trigger] m[i]).1
                    >= p[#[trigger] o[j]].1
        }),
{
    let keys = p.map_values(|e: (Seq<char>, u64)| -(e.1 as int));
    order_is_sorted(keys);
    let o = order(keys);
    let m = most(p, n);
    assert forall|i: int, j: int| 0 <= i < j < m.len() implies (#[trigger] m[i]).1 >= (
    #[trigger] m[j]).1 by {
        assert(crate::sorting::may_precede(keys, o[i], o[j]));
    }
    assert forall|i: int, j: int| 0 <= i < m.len() && m.len() <= j < p.len() implies (
    #[trigger] m[i]).1 >= p[#[trigger] o[j]].1 by {
        assert(crate::sorting::may_precede(keys, o[i], o[j]));
    }
}

} // verus!
