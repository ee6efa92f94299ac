//! How the server starts, goes on, counts what it does, and ends.

use vstd::prelude::*;

use crate::configs::resolve::{CliView, ResolvedView};
use crate::digits::decimal;
use crate::laws::wording::{lemma_around, lemma_lacking, lemma_prefixed, numbers_read_back};
use crate::servers::http::{framing_of, keeps_alive, Framing, RequestView};
use crate::servers::https::{framed, https_parts};
use crate::servers::info::{
    class_of, count_of, counted, grown, group_at, in_window, kept, mean, new_group, next_level,
    no_times, path_counted, previous_level, rank, recent, recorded, timed, with_answer, Answered,
    HandlerStatsView, IssueGroupView, IssueKind, OccurrenceView, Totals,
};
use crate::servers::lifecycle::{
    step_after, turn, with_body, with_head, Connection, Next, RunStep, Turn,
};
use crate::servers::startup::{bind_text, lacks_name, options_from};
use crate::table::pairs_of;
use crate::text::{lemma_position_is, starts_with};

verus! {

// ---------------------------------------------------------------------------
// Starting
// ---------------------------------------------------------------------------

/// Options that take a value take the word behind them, wherever they stand; `--debug`
/// takes none; and other words are passed over.
pub proof fn options_take_their_value(
    args: Seq<Seq<char>>,
    i: int,
    o: CliView,
    v: Seq<char>,
    port: u16,
)
    requires
        0 <= i < args.len(),
    ensures
        args[i] == "--listen"@ && i + 1 < args.len() && args[i + 1] == v ==> options_from(
            args,
            i,
            o,
        ) == options_from(args, i + 2, CliView { listen: Some(v), ..o }),
        args[i] == "--port"@ && i + 1 < args.len() && args[i + 1] == decimal(port as int)
            ==> options_from(args, i, o) == options_from(
            args,
            i + 2,
            CliView { port: Some(port), ..o },
        ),
        args[i] == "--dir"@ && i + 1 < args.len() && args[i + 1] == v ==> options_from(args, i, o)
            == options_from(args, i + 2, CliView { base_dir: Some(v), ..o }),
        args[i] == "--fqdn"@ && i + 1 < args.len() && args[i + 1] == v ==> options_from(args, i, o)
            == options_from(args, i + 2, CliView { fqdn: Some(v), ..o }),
        args[i] == "--log"@ && i + 1 < args.len() && args[i + 1] == v ==> options_from(args, i, o)
            == options_from(args, i + 2, CliView { log_dir: Some(v), ..o }),
        args[i] == "--config"@ && i + 1 < args.len() && args[i + 1] == v ==> options_from(
            args,
            i,
            o,
        ) == options_from(args, i + 2, CliView { config_path: Some(v), ..o }),
        args[i] == "--debug"@ ==> options_from(args, i, o) == options_from(
            args,
            i + 1,
            CliView { debug: Some(true), ..o },
        ),
        args[i] == "serve"@ ==> options_from(args, i, o) == options_from(args, i + 1, o),
        options_from(args, args.len() as int, o) == o,
{
    numbers_read_back(port as int);
    lemma_options_apart();
}

proof fn lemma_options_apart()
    ensures
        "--port"@ != "--listen"@,
        "--dir"@ != "--listen"@ && "--dir"@ != "--port"@,
        "--fqdn"@ != "--listen"@ && "--fqdn"@ != "--port"@ && "--fqdn"@ != "--dir"@,
        "--log"@ != "--listen"@ && "--log"@ != "--port"@ && "--log"@ != "--dir"@ && "--log"@
            != "--fqdn"@,
        "--config"@ != "--listen"@ && "--config"@ != "--port"@ && "--config"@ != "--dir"@
            && "--config"@ != "--fqdn"@ && "--config"@ != "--log"@,
        "--debug"@ != "--listen"@ && "--debug"@ != "--port"@ && "--debug"@ != "--dir"@ && "--debug"@
            != "--fqdn"@ && "--debug"@ != "--log"@ && "--debug"@ != "--config"@,
        "serve"@ != "--listen"@ && "serve"@ != "--port"@ && "serve"@ != "--dir"@ && "serve"@
            != "--fqdn"@ && "serve"@ != "--log"@ && "serve"@ != "--config"@ && "serve"@
            != "--debug"@,
{
    reveal_strlit("--listen");
    reveal_strlit("--port");
    reveal_strlit("--dir");
    reveal_strlit("--fqdn");
    reveal_strlit("--log");
    reveal_strlit("--config");
    reveal_strlit("--debug");
    reveal_strlit("serve");
    assert("--listen"@[2] == 'l' && "--listen"@[3] == 'i');
    assert("--port"@[2] == 'p');
    assert("--dir"@[2] == 'd' && "--dir"@[3] == 'i');
    assert("--fqdn"@[2] == 'f');
    assert("--log"@[2] == 'l' && "--log"@[3] == 'o');
    assert("--config"@[2] == 'c');
    assert("--debug"@[2] == 'd' && "--debug"@[3] == 'e');
    assert("serve"@[0] == 's' && "--listen"@[0] == '-' && "--port"@[0] == '-' && "--dir"@[0] == '-'
        && "--fqdn"@[0] == '-' && "--log"@[0] == '-' && "--config"@[0] == '-' && "--debug"@[0]
        == '-');
}

/// An address with colons stands in brackets before the port, once.
pub proof fn addresses_stand_in_brackets(listen: Seq<char>, port: u16)
    ensures
        !listen.contains(':') ==> bind_text(listen, port) == listen + seq![':'] + decimal(
            port as int,
        ),
        listen.contains(':') && listen[0] != '[' ==> bind_text(listen, port) == seq!['['] + listen
            + seq![']', ':'] + decimal(port as int),
        listen.len() > 0 && listen[0] == '[' ==> bind_text(listen, port) == listen + seq![':']
            + decimal(port as int),
{
    reveal_strlit("[");
    reveal_strlit("]");
    reveal_strlit(":");
    assert("["@ =~= seq!['[']);
    assert("]"@ =~= seq![']']);
    assert(":"@ =~= seq![':']);
    if listen.len() > 0 && listen[0] == '[' {
        assert(listen.subrange(0, 1) =~= "["@);
        assert(starts_with(listen, "["@));
    }
    if listen.contains(':') && listen[0] != '[' {
        crate::laws::wording::lemma_not_prefixed("["@, listen);
        assert(seq!['['] + listen + seq![']'] + seq![':'] + decimal(port as int) =~= seq!['[']
            + listen + seq![']', ':'] + decimal(port as int));
    }
}

/// A server with encryption needs a name; one without does not.
pub proof fn encryption_needs_a_name(o: ResolvedView)
    ensures
        !o.tls_enabled ==> !lacks_name(o),
        o.tls_enabled && o.fqdn is None ==> lacks_name(o),
        o.tls_enabled && o.fqdn == Some(Seq::<char>::empty()) ==> lacks_name(o),
        o.tls_enabled && o.fqdn is Some && o.fqdn->0.len() > 0 ==> !lacks_name(o),
{
}

// ---------------------------------------------------------------------------
// Going on
// ---------------------------------------------------------------------------

/// A server binds, gives up its privileges, prepares, serves, and stops; what fails
/// before it serves ends it, except for its logs and its child.
pub proof fn servers_go_step_by_step(done: bool)
    ensures
        step_after(RunStep::Check, true) == RunStep::Bind,
        step_after(RunStep::Bind, true) == RunStep::DropPrivileges,
        step_after(RunStep::DropPrivileges, true) == RunStep::InstallHandlers,
        step_after(RunStep::InstallHandlers, true) == RunStep::OpenLogs,
        step_after(RunStep::OpenLogs, done) == RunStep::StartChild,
        step_after(RunStep::StartChild, done) == RunStep::Serve,
        step_after(RunStep::Serve, done) == RunStep::StopChild,
        step_after(RunStep::StopChild, done) == RunStep::Stopped,
        step_after(RunStep::Check, false) == RunStep::Failed,
        step_after(RunStep::Bind, false) == RunStep::Failed,
        step_after(RunStep::DropPrivileges, false) == RunStep::Failed,
        step_after(RunStep::InstallHandlers, false) == RunStep::Failed,
        step_after(RunStep::Failed, done) == RunStep::Failed,
        step_after(RunStep::Stopped, done) == RunStep::Stopped,
{
}

/// A server that is to end takes no more clients; one that goes on looks at its settings
/// every second.
pub proof fn servers_look_at_their_settings(since: u64)
    ensures
        turn(true, since) == Turn::Stop,
        since < 1000 ==> turn(false, since) == Turn::Accept,
        since >= 1000 ==> turn(false, since) == Turn::CheckReload,
{
}

/// After its head the body of a request is read as it is framed; after a body that came
/// whole the request is answered; and without a head the connection ends.
pub proof fn connections_go_step_by_step(c: Connection, q: RequestView, n: u64)
    ensures
        with_head(c, None).next == Next::Close,
        framing_of(q) == Framing::Chunked ==> with_head(c, Some(q)).next == Next::Chunks,
        framing_of(q) == Framing::Length(0) ==> with_head(c, Some(q)).next == Next::Answer,
        framing_of(q) == Framing::Length(n) && n > 0 ==> with_head(c, Some(q)).next == Next::Bytes(
            n,
        ),
        with_head(c, Some(q)).keep_alive == keeps_alive(q),
        with_body(c, true).next == Next::Answer,
        with_body(c, false).next == Next::Close,
        with_body(c, true).keep_alive == c.keep_alive,
        crate::servers::lifecycle::with_answer(c, None).next == Next::Close,
        crate::servers::lifecycle::with_answer(c, Some(400)).next == Next::Close,
        c.keep_alive ==> crate::servers::lifecycle::with_answer(c, Some(200)).next == Next::Head,
        c.keep_alive ==> crate::servers::lifecycle::with_answer(c, Some(404)).next == Next::Head,
        !c.keep_alive ==> crate::servers::lifecycle::with_answer(c, Some(200)).next == Next::Close,
{
}

// ---------------------------------------------------------------------------
// Counting
// ---------------------------------------------------------------------------

/// Each answer is counted once: among all, by its method, by the class of its status,
/// and, where it is an error, among the errors.
pub proof fn answers_are_counted(t: Totals, a: Answered)
    requires
        t.requests < u64::MAX,
        t.sent + a.sent <= u64::MAX,
        t.received + a.received <= u64::MAX,
        count_of(t.by_method, a.method) < u64::MAX,
        count_of(t.by_class, class_of(a.status)) < u64::MAX,
    ensures
        with_answer(t, a).requests == t.requests + 1,
        with_answer(t, a).sent == t.sent + a.sent,
        with_answer(t, a).received == t.received + a.received,
        count_of(with_answer(t, a).by_method, a.method) == count_of(t.by_method, a.method) + 1,
        count_of(with_answer(t, a).by_class, class_of(a.status)) == count_of(
            t.by_class,
            class_of(a.status),
        ) + 1,
        a.status < 400 ==> with_answer(t, a).error_paths == t.error_paths,
        200 <= a.status <= 299 ==> class_of(a.status) == "2xx"@,
        300 <= a.status <= 399 ==> class_of(a.status) == "3xx"@,
        400 <= a.status <= 499 ==> class_of(a.status) == "4xx"@,
        500 <= a.status <= 599 ==> class_of(a.status) == "5xx"@,
{
}

/// Counts are kept in the order of what is counted, and the others stay as they are.
pub proof fn counts_grow_by_one(
    front: Seq<(u64, u64)>,
    key: u64,
    n: u64,
    back: Seq<(u64, u64)>,
)
    requires
        n < u64::MAX,
        forall|i: int| 0 <= i < front.len() ==> (#[trigger] front[i]).0 < key,
        forall|i: int| 0 <= i < back.len() ==> (#[trigger] back[i]).0 > key,
    ensures
        counted(front.push((key, n)) + back, key) == front.push((key, (n + 1) as u64)) + back,
        counted(front + back, key) == front.push((key, 1u64)) + back,
    decreases back.len(),
{
    let a = front.push((key, n)) + back;
    let b = front + back;
    if back.len() == 0 {
        assert(a =~= front.push((key, n)));
        assert(a.drop_last() =~= front);
        assert(front.push((key, (n + 1) as u64)) + back =~= front.push((key, (n + 1) as u64)));
        assert(b =~= front);
        assert(front.push((key, 1u64)) + back =~= front.push((key, 1u64)));
        if front.len() > 0 {
            assert(front[front.len() - 1].0 < key);
        }
    } else {
        let d = back.drop_last();
        counts_grow_by_one(front, key, n, d);
        assert(a.drop_last() =~= front.push((key, n)) + d);
        assert(b.drop_last() =~= front + d);
        assert(a.last() == back[back.len() - 1] && b.last() == back[back.len() - 1]);
        assert((front.push((key, (n + 1) as u64)) + d).push(back.last()) =~= front.push(
            (key, (n + 1) as u64),
        ) + back);
        assert((front.push((key, 1u64)) + d).push(back.last()) =~= front.push((key, 1u64)) + back);
    }
}

/// Times are counted, added up, and kept between the shortest and the longest.
pub proof fn times_are_kept(h: HandlerStatsView, ms: u64)
    requires
        h.count < u64::MAX,
        h.total_ms + ms <= u64::MAX,
    ensures
        timed(h, ms).count == h.count + 1,
        timed(h, ms).total_ms == h.total_ms + ms,
        timed(h, ms).min_ms <= ms && timed(h, ms).min_ms <= h.min_ms,
        timed(h, ms).min_ms == ms || timed(h, ms).min_ms == h.min_ms,
        timed(h, ms).max_ms >= ms && timed(h, ms).max_ms >= h.max_ms,
        timed(h, ms).max_ms == ms || timed(h, ms).max_ms == h.max_ms,
        timed(h, ms).samples.last() == ms,
        timed(no_times(), ms).min_ms == ms && timed(no_times(), ms).max_ms == ms,
        h.count > 0 ==> mean(h) == h.total_ms / h.count,
        mean(no_times()) == 0,
{
}

/// Of what is kept in a limited number the newest stays, and the oldest goes.
pub proof fn the_oldest_goes(s: Seq<u64>, limit: int, x: u64)
    requires
        0 < limit,
    ensures
        s.len() < limit ==> kept(s, limit, x) == s.push(x),
        s.len() == limit ==> kept(s, limit, x) == s.skip(1).push(x),
        s.len() == limit ==> kept(s, limit, x).len() == limit,
{
    if s.len() == limit {
        assert(s.remove(0) =~= s.skip(1));
    }
}

/// The share of times that are not above a given one: none is the least, all the
/// greatest.
pub proof fn ranks_go_from_least_to_greatest(n: int)
    requires
        n > 0,
    ensures
        rank(n, 0) == 0,
        rank(n, 100) == n - 1,
        n == 1 ==> rank(n, 50) == 0,
        n % 2 == 1 ==> rank(n, 50) == (n - 1) / 2,
{
    assert((2 * (n - 1) * 0 + 100) / 200 == 0);
    assert((2 * (n - 1) * 100 + 100) / 200 == n - 1);
    if n % 2 == 1 {
        let k = (n - 1) / 2;
        assert((2 * (n - 1) * 50 + 100) / 200 == k);
    }
}

/// The rate counts what came in the last minute, and what is older is forgotten.
pub proof fn the_last_minute_counts(list: Seq<(u64, u64)>, at: u64, n: u64, now: u64)
    requires
        0 < at <= now,
    ensures
        now - at < 60 ==> in_window(list.push((at, n)), now) == in_window(list, now) + n,
        now - at >= 60 ==> in_window(list.push((at, n)), now) == in_window(list, now),
        in_window(Seq::empty(), now) == 0,
        now - at < 60 ==> recent(list.push((at, n)), now) == recent(list, now).push((at, n)),
        now - at >= 60 ==> recent(list.push((at, n)), now) == recent(list, now),
{
    assert(list.push((at, n)).drop_last() =~= list);
}

/// Paths are counted, up to a thousand of them; beyond that a new path takes the place
/// of the one that was asked for least.
pub proof fn a_thousand_paths_are_counted(
    m: Map<Seq<char>, u64>,
    p: Seq<(Seq<char>, u64)>,
    path: Seq<char>,
)
    requires
        count_of(m, path) < u64::MAX,
    ensures
        m.contains_key(path) ==> path_counted(m, p, path) == m.insert(path, (m[path] + 1) as u64),
        !m.contains_key(path) && p.len() < 1000 ==> path_counted(m, p, path) == m.insert(path, 1),
        !m.contains_key(path) && p.len() >= 1000 ==> exists|i: int|
            0 <= i < p.len() && path_counted(m, p, path) == m.remove(p[i].0).insert(path, 1)
                && forall|j: int| 0 <= j < p.len() ==> (#[trigger] p[i]).1 <= (#[trigger] p[j]).1,
{
    if !m.contains_key(path) && p.len() >= 1000 {
        lemma_least(p, 0, 0);
        let i = crate::servers::info::least(p, 0, 0);
        assert(path_counted(m, p, path) == m.remove(p[i].0).insert(path, 1));
    }
}

proof fn lemma_least(p: Seq<(Seq<char>, u64)>, i: int, best: int)
    requires
        0 <= i <= p.len(),
        0 <= best < p.len(),
        forall|j: int| 0 <= j < i ==> p[best].1 <= (#[trigger] p[j]).1,
    ensures
        0 <= crate::servers::info::least(p, i, best) < p.len(),
        forall|j: int|
            0 <= j < p.len() ==> p[crate::servers::info::least(p, i, best)].1 <= (#[trigger] p[j]).1,
    decreases p.len() - i,
{
    if i < p.len() {
        if p[i].1 < p[best].1 {
            lemma_least(p, i + 1, i);
        } else {
            lemma_least(p, i + 1, best);
        }
    }
}

/// Of a group of problems the last twenty are kept, of the times of a handler the last
/// two hundred and fifty-six, and of the groups two hundred.
pub proof fn only_so_many_are_kept(
    g: IssueGroupView,
    o: OccurrenceView,
    h: HandlerStatsView,
    ms: u64,
    all: Seq<IssueGroupView>,
    kind: IssueKind,
    path: Seq<char>,
    cause: Seq<char>,
)
    requires
        forall|i: int|
            0 <= i < all.len() ==> !((#[trigger] all[i]).kind == kind && all[i].path == path
                && all[i].cause == cause),
    ensures
        g.occurrences.len() < 20 ==> grown(g, o).occurrences == g.occurrences.push(o),
        g.occurrences.len() == 20 ==> grown(g, o).occurrences == g.occurrences.skip(1).push(o),
        h.samples.len() < 256 ==> timed(h, ms).samples == h.samples.push(ms),
        h.samples.len() == 256 ==> timed(h, ms).samples == h.samples.skip(1).push(ms),
        all.len() < 200 ==> recorded(all, kind, path, cause, o) == all.push(
            new_group(kind, path, cause, o),
        ),
        all.len() == 200 ==> recorded(all, kind, path, cause, o).len() == 200 && recorded(
            all,
            kind,
            path,
            cause,
            o,
        ).last() == new_group(kind, path, cause, o),
{
    lemma_no_group(all, 0, kind, path, cause);
    if g.occurrences.len() == 20 {
        assert(g.occurrences.remove(0) =~= g.occurrences.skip(1));
    }
    if h.samples.len() == 256 {
        assert(h.samples.remove(0) =~= h.samples.skip(1));
    }
    if all.len() == 200 {
        lemma_oldest(all, 0, 0);
    }
}

proof fn lemma_no_group(
    g: Seq<IssueGroupView>,
    i: int,
    kind: IssueKind,
    path: Seq<char>,
    cause: Seq<char>,
)
    requires
        0 <= i,
        forall|j: int|
            0 <= j < g.len() ==> !((#[trigger] g[j]).kind == kind && g[j].path == path && g[j].cause
                == cause),
    ensures
        group_at(g, i, kind, path, cause) == g.len(),
    decreases g.len() - i,
{
    if i < g.len() {
        lemma_no_group(g, i + 1, kind, path, cause);
    }
}

proof fn lemma_oldest(g: Seq<IssueGroupView>, i: int, best: int)
    requires
        0 <= i <= g.len(),
        0 <= best < g.len(),
    ensures
        0 <= crate::servers::info::oldest(g, i, best) < g.len(),
    decreases g.len() - i,
{
    if i < g.len() {
        if g[i].last_seen < g[best].last_seen {
            lemma_oldest(g, i + 1, i);
        } else {
            lemma_oldest(g, i + 1, best);
        }
    }
}

/// A problem that is known is counted with those like it; another starts a group of its
/// own.
pub proof fn problems_are_counted(g: IssueGroupView, kind: IssueKind, o: OccurrenceView)
    requires
        g.count < u64::MAX,
    ensures
        grown(g, o).count == g.count + 1,
        grown(g, o).last_seen == o.unix_secs,
        grown(g, o).kind == g.kind && grown(g, o).path == g.path && grown(g, o).cause == g.cause,
        grown(g, o).occurrences.last() == o,
        new_group(kind, g.path, g.cause, o).count == 1,
        new_group(kind, g.path, g.cause, o).last_seen == o.unix_secs,
        new_group(kind, g.path, g.cause, o).occurrences == seq![o],
{
}

/// What is taken and given back is counted up and down.
pub proof fn levels_go_up_and_down(n: i64)
    requires
        i64::MIN < n < i64::MAX,
    ensures
        next_level(n) == n + 1,
        previous_level(n) == n - 1,
{
}

// ---------------------------------------------------------------------------
// Asking others
// ---------------------------------------------------------------------------

/// A secure address names a host, its port, which is 443 where none is named or it is no number, and a path,
/// which is `/` where none is named. No other address is secure.
pub proof fn secure_addresses_are_read(
    host: Seq<char>,
    port: u16,
    path: Seq<char>,
    word: Seq<char>,
    url: Seq<char>,
)
    requires
        !host.contains('/') && !host.contains(':'),
    ensures
        https_parts("https://"@ + (host + seq!['/'] + path)) == Some((host, 443u16, seq!['/'] + path)),
        https_parts("https://"@ + host) == Some((host, 443u16, "/"@)),
        https_parts("https://"@ + (host + seq![':'] + decimal(port as int))) == Some(
            (host, port, "/"@),
        ),
        crate::digits::number16(word) is None && !word.contains('/') ==> https_parts(
            "https://"@ + (host + seq![':'] + word),
        ) == Some((host, 443u16, "/"@)),
        !starts_with(url, "https://"@) ==> https_parts(url) is None,
{
    if !word.contains('/') {
        let c = host + seq![':'] + word;
        assert(!c.contains('/')) by {
            if c.contains('/') {
                let i = choose|i: int| 0 <= i < c.len() && c[i] == '/';
                if i < host.len() {
                    assert(host[i] == '/');
                    assert(host.contains('/'));
                } else if i > host.len() {
                    assert(word[i - host.len() - 1] == '/');
                }
            }
        }
        lemma_lacking(c, '/');
        lemma_prefixed("https://"@, c);
        lemma_around(host, ':', word);
    }
    let a = host + seq!['/'] + path;
    lemma_prefixed("https://"@, a);
    assert forall|j: int| 0 <= j < host.len() implies a[j] != '/' by {
        assert(a[j] == host[j]);
        assert(host.contains(host[j]));
    }
    lemma_position_is(a, '/', host.len() as int);
    assert(a.take(host.len() as int) =~= host);
    assert(a.skip(host.len() as int) =~= seq!['/'] + path);
    lemma_lacking(host, ':');
    lemma_lacking(host, '/');
    lemma_prefixed("https://"@, host);
    let d = decimal(port as int);
    let b = host + seq![':'] + d;
    crate::laws::wording::lemma_decimal_digits(port as int);
    assert(!b.contains('/')) by {
        if b.contains('/') {
            let i = choose|i: int| 0 <= i < b.len() && b[i] == '/';
            if i < host.len() {
                assert(host[i] == '/');
                assert(host.contains('/'));
            } else if i > host.len() {
                assert('0' <= d[i - host.len() - 1] <= '9');
            }
        }
    }
    lemma_lacking(b, '/');
    lemma_prefixed("https://"@, b);
    lemma_around(host, ':', d);
    numbers_read_back(port as int);
}

/// A reply is as long as it says.
pub proof fn replies_are_as_long_as_they_say(m: Map<Seq<char>, Seq<char>>, body: Seq<u8>, n: u32)
    requires
        !m.contains_key("transfer-encoding"@),
    ensures
        m.contains_key("content-length"@) && m["content-length"@] == decimal(n as int) && n
            <= body.len() ==> framed(m, body) == body.take(n as int),
        !m.contains_key("content-length"@) ==> framed(m, body) == body,
{
    crate::digits::written_reads_back(n as int, 10);
    if n == body.len() {
        assert(body.take(n as int) =~= body);
    }
}


/// Each answer is counted under its status and its path too, and an error among the errors
/// of its path.
pub proof fn answers_are_counted_by_path(t: Totals, a: Answered)
    ensures
        with_answer(t, a).by_status == counted(t.by_status, a.status as u64),
        with_answer(t, a).paths == path_counted(t.paths, pairs_of(t.paths), a.path),
        a.status >= 400 ==> with_answer(t, a).error_paths == path_counted(
            t.error_paths,
            pairs_of(t.error_paths),
            a.path,
        ),
        a.status < 200 || a.status >= 600 ==> class_of(a.status) == "other"@,
{
}

} // verus!
