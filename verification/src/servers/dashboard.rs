//! The page that shows what the server has done.

use vstd::prelude::*;

use crate::configs::resolve::{Resolved, ResolvedView};
use crate::digits::{decimal, decimal_of, two_digits, two_digits_of};
use crate::servers::info::{
    handler_label, in_window, issue_label, mean, most, percentile_of, times_of, HandlerStatsView,
    HandlerType, IssueGroup, IssueGroupView, IssueKind, Occurrence, OccurrenceView, Stats,
    MAX_LATENCY_SAMPLES,
};
use crate::servers::pages::{escaped, html_escape};
use crate::servers::proxy::{ProxyTarget, ProxyTargetView};
use crate::sorting::{indices, key_values, order, order_of};
use crate::supports::calendar::{format_http_date, http_date};
use crate::supports::format::{duration, duration_text, size, size_text};
use crate::table::{pairs_of, Table};
use crate::text::{lines, split_lines};

verus! {

/// How the page starts.
pub const DASHBOARD_START: &'static str =
    "<!doctype html><html><head><meta charset=\"utf-8\"><meta name=\"viewport\" content=\"width=device-width, initial-scale=1\"><title>cashttpd /server-info</title><style>body{font-family:system-ui,sans-serif;margin:0;padding:2rem 1.25rem;background:#0f172a;color:#e2e8f0;min-height:100vh;box-sizing:border-box}h1{font-size:1.75rem;margin:0 0 1rem}h2{font-size:1.15rem;margin:2rem 0 .5rem;color:#94a3b8}.card{max-width:56rem;margin:0 auto}.grid{display:grid;grid-template-columns:repeat(auto-fit,minmax(11rem,1fr));gap:.75rem}.stat{background:#1e293b;border-radius:.5rem;padding:.75rem 1rem}.stat .n{font-size:1.4rem;font-weight:600}.stat .l{font-size:.8rem;color:#94a3b8}table{width:100%;border-collapse:collapse;font-size:.9rem}th,td{text-align:left;padding:.35rem .5rem;border-bottom:1px solid #334155}code{background:#334155;padding:.1rem .35rem;border-radius:.25rem;word-break:break-all}details{background:#1e293b;border-radius:.5rem;padding:.5rem .75rem;margin:.5rem 0}summary{cursor:pointer}pre{white-space:pre-wrap;word-break:break-word;background:#0f172a;padding:.5rem;border-radius:.35rem;overflow-x:auto}.badge{display:inline-block;padding:.05rem .4rem;border-radius:.25rem;font-size:.75rem;background:#334155}</style></head><body><div class=\"card\"><h1>cashttpd /server-info</h1>";

/// What the page says of the development server.
pub open spec fn proxy_line(t: Option<ProxyTargetView>, pid: i32) -> Seq<char> {
    match t {
        Some(t) => "<tr><td>Proxy target</td><td><code>"@ + escaped(t.kind)
            + "</code> &rarr; <code>"@ + escaped(t.upstream) + "</code> (prefix <code>"@ + escaped(
            t.path_prefix,
        ) + "</code>, "@ + (if pid > 0 {
            "running, pid "@ + decimal(pid as int)
        } else {
            "not running"@
        }) + ")</td></tr>"@,
        None => "<tr><td>Proxy target</td><td>none configured</td></tr>"@,
    }
}

fn render_proxy_line(t: Option<&ProxyTarget>, pid: i32) -> (r: String)
    ensures
        r@ == proxy_line(t.deep_view(), pid),
{
    match t {
        Some(t) => {
            let mut out = "<tr><td>Proxy target</td><td><code>".to_owned();
            out.append(html_escape(t.kind.as_str()).as_str());
            out.append("</code> &rarr; <code>");
            out.append(html_escape(t.upstream.as_str()).as_str());
            out.append("</code> (prefix <code>");
            out.append(html_escape(t.path_prefix.as_str()).as_str());
            out.append("</code>, ");
            let mut state = "not running".to_owned();
            if pid > 0 {
                state = "running, pid ".to_owned();
                state.append(decimal_of(pid as u64).as_str());
            }
            out.append(state.as_str());
            out.append(")</td></tr>");
            out
        },
        None => "<tr><td>Proxy target</td><td>none configured</td></tr>".to_owned(),
    }
}

/// The part of the page on where and since when the server runs.
pub open spec fn overview(
    s: Stats,
    opts: ResolvedView,
    t: Option<ProxyTargetView>,
    uptime: Seq<char>,
    started: Seq<char>,
) -> Seq<char> {
    "<h2>Overview</h2><table><tr><td>Listen</td><td><code>"@ + escaped(opts.listen) + ":"@
        + decimal(opts.port as int) + "</code></td></tr><tr><td>TLS</td><td>"@ + (
    if opts.tls_enabled {
        "enabled"@
    } else {
        "disabled"@
    }) + "</td></tr><tr><td>Base dir</td><td><code>"@ + escaped(opts.base_dir)
        + "</code></td></tr>"@ + proxy_line(t, s.proxy_child_pid)
        + "<tr><td>Sandboxing / child-lifecycle posture</td><td>"@ + escaped(s.sandboxing_posture@)
        + "</td></tr><tr><td>Started</td><td>"@ + started + "</td></tr><tr><td>Uptime</td><td>"@
        + uptime + "</td></tr></table>"@
}

fn render_overview(
    stats: &Stats,
    opts: &Resolved,
    target: Option<&ProxyTarget>,
    uptime: &str,
    started: &str,
) -> (r: String)
    ensures
        r@ == overview(*stats, opts@, target.deep_view(), uptime@, started@),
{
    let mut out = "<h2>Overview</h2><table><tr><td>Listen</td><td><code>".to_owned();
    out.append(html_escape(opts.listen.as_str()).as_str());
    out.append(":");
    out.append(decimal_of(opts.port as u64).as_str());
    out.append("</code></td></tr><tr><td>TLS</td><td>");
    out.append(
        if opts.tls_enabled {
            "enabled"
        } else {
            "disabled"
        },
    );
    out.append("</td></tr><tr><td>Base dir</td><td><code>");
    out.append(html_escape(opts.base_dir.as_str()).as_str());
    out.append("</code></td></tr>");
    out.append(render_proxy_line(target, stats.proxy_child_pid).as_str());
    out.append("<tr><td>Sandboxing / child-lifecycle posture</td><td>");
    out.append(html_escape(stats.sandboxing_posture.as_str()).as_str());
    out.append("</td></tr><tr><td>Started</td><td>");
    out.append(started);
    out.append("</td></tr><tr><td>Uptime</td><td>");
    out.append(uptime);
    out.append("</td></tr></table>");
    out
}

/// A level, which is shown as zero where it is below.
pub open spec fn level(n: i64) -> Seq<char> {
    decimal(
        if n > 0 {
            n as int
        } else {
            0
        },
    )
}

fn level_of(n: i64) -> (r: String)
    ensures
        r@ == level(n),
{
    decimal_of(
        if n > 0 {
            n as u64
        } else {
            0
        },
    )
}

/// A number of requests in the window as requests in a second, with two decimal
/// places.
pub open spec fn rate_text(total: int) -> Seq<char> {
    decimal(total / 60) + "."@ + two_digits((10 * (total % 60) + 3) / 6)
}

/// A number of requests in the window as requests in a second.
pub fn render_rate(total: u64) -> (r: String)
    ensures
        r@ == rate_text(total as int),
{
    let mut out = decimal_of(total / 60);
    out.append(".");
    out.append(two_digits_of((10 * (total % 60) + 3) / 6).as_str());
    out
}

/// Counts by name as rows.
pub open spec fn method_rows(p: Seq<(Seq<char>, u64)>) -> Seq<char>
    decreases p.len(),
{
    if p.len() == 0 {
        ""@
    } else {
        method_rows(p.drop_last()) + "<tr><td>"@ + escaped(p.last().0) + "</td><td>"@ + decimal(
            p.last().1 as int,
        ) + "</td></tr>"@
    }
}

fn render_method_rows(t: &Table<u64>) -> (r: String)
    ensures
        r@ == method_rows(pairs_of(t@)),
{
    let n: usize = t.len();
    let ghost p = t.pairs();
    let mut out = "".to_owned();
    let mut i: usize = 0;
    assert(p.take(0) =~= Seq::empty());
    while i < n
        invariant
            i <= n,
            n == p.len(),
            p == t.pairs(),
            out@ == method_rows(p.take(i as int)),
        decreases n - i,
    {
        assert(p.take(i + 1).drop_last() =~= p.take(i as int));
        out.append("<tr><td>");
        out.append(html_escape(t.key_at(i).as_str()).as_str());
        out.append("</td><td>");
        out.append(decimal_of(*t.value_at(i)).as_str());
        out.append("</td></tr>");
        i = i + 1;
    }
    assert(p.take(n as int) =~= p);
    out
}

/// Counts by status as rows.
pub open spec fn status_rows(p: Seq<(u64, u64)>) -> Seq<char>
    decreases p.len(),
{
    if p.len() == 0 {
        ""@
    } else {
        status_rows(p.drop_last()) + "<tr><td>"@ + decimal(p.last().0 as int) + "</td><td>"@
            + decimal(p.last().1 as int) + "</td></tr>"@
    }
}

/// Counts by class of status as rows, after other rows.
pub open spec fn class_rows(start: Seq<char>, p: Seq<(Seq<char>, u64)>) -> Seq<char>
    decreases p.len(),
{
    if p.len() == 0 {
        start
    } else {
        class_rows(start, p.drop_last()) + "<tr><td><span class=\"badge\">"@ + p.last().0
            + "</span></td><td>"@ + decimal(p.last().1 as int) + "</td></tr>"@
    }
}

fn render_status_rows(list: &Vec<(u64, u64)>, classes: &Table<u64>) -> (r: String)
    ensures
        r@ == class_rows(status_rows(list@), pairs_of(classes@)),
{
    let ghost l = list@;
    let m: usize = list.len();
    let mut out = "".to_owned();
    let mut i: usize = 0;
    assert(l.take(0) =~= Seq::empty());
    while i < m
        invariant
            i <= m,
            m == l.len(),
            l == list@,
            out@ == status_rows(l.take(i as int)),
        decreases m - i,
    {
        assert(l.take(i + 1).drop_last() =~= l.take(i as int));
        out.append("<tr><td>");
        out.append(decimal_of(list[i].0).as_str());
        out.append("</td><td>");
        out.append(decimal_of(list[i].1).as_str());
        out.append("</td></tr>");
        i = i + 1;
    }
    assert(l.take(m as int) =~= l);
    let n: usize = classes.len();
    let ghost p = classes.pairs();
    let ghost start = out@;
    let mut j: usize = 0;
    assert(p.take(0) =~= Seq::empty());
    while j < n
        invariant
            j <= n,
            n == p.len(),
            p == classes.pairs(),
            out@ == class_rows(start, p.take(j as int)),
        decreases n - j,
    {
        assert(p.take(j + 1).drop_last() =~= p.take(j as int));
        out.append("<tr><td><span class=\"badge\">");
        out.append(classes.key_at(j).as_str());
        out.append("</span></td><td>");
        out.append(decimal_of(*classes.value_at(j)).as_str());
        out.append("</td></tr>");
        j = j + 1;
    }
    assert(p.take(n as int) =~= p);
    out
}

/// The part of the page on how many requests there were.
pub open spec fn totals(s: Stats, now: u64) -> Seq<char> {
    "<h2>Request/response stats</h2><div class=\"grid\"><div class=\"stat\"><div class=\"n\">"@
        + decimal(s.total_requests as int)
        + "</div><div class=\"l\">total requests</div></div><div class=\"stat\"><div class=\"n\">"@
        + level(s.in_flight)
        + "</div><div class=\"l\">in-flight</div></div><div class=\"stat\"><div class=\"n\">"@
        + level(s.active_upstream)
        + "</div><div class=\"l\">active upstream conns</div></div><div class=\"stat\"><div class=\"n\">"@
        + rate_text(in_window(s.rate.buckets@, now) % 0x1_0000_0000_0000_0000)
        + "/s</div><div class=\"l\">requests/sec (60s window)</div></div><div class=\"stat\"><div class=\"n\">"@
        + size_text(s.bytes_sent as int)
        + "</div><div class=\"l\">bytes sent</div></div><div class=\"stat\"><div class=\"n\">"@
        + size_text(s.bytes_received as int)
        + "</div><div class=\"l\">bytes received</div></div></div><table><tr><th>By method</th><th></th></tr>"@
        + method_rows(pairs_of(s.by_method@))
        + "</table><table><tr><th>By status</th><th></th></tr>"@ + class_rows(
        status_rows(s.by_status@),
        pairs_of(s.by_class@),
    ) + "</table>"@
}

fn render_totals(stats: &Stats, now: u64) -> (r: String)
    ensures
        r@ == totals(*stats, now),
{
    let rate: u64 = (stats.rate.total(now) % 0x1_0000_0000_0000_0000) as u64;
    let mut out =
        "<h2>Request/response stats</h2><div class=\"grid\"><div class=\"stat\"><div class=\"n\">".to_owned();
    out.append(decimal_of(stats.total_requests).as_str());
    out.append(
        "</div><div class=\"l\">total requests</div></div><div class=\"stat\"><div class=\"n\">",
    );
    out.append(level_of(stats.in_flight).as_str());
    out.append("</div><div class=\"l\">in-flight</div></div><div class=\"stat\"><div class=\"n\">");
    out.append(level_of(stats.active_upstream).as_str());
    out.append(
        "</div><div class=\"l\">active upstream conns</div></div><div class=\"stat\"><div class=\"n\">",
    );
    out.append(render_rate(rate).as_str());
    out.append(
        "/s</div><div class=\"l\">requests/sec (60s window)</div></div><div class=\"stat\"><div class=\"n\">",
    );
    out.append(size(stats.bytes_sent).as_str());
    out.append("</div><div class=\"l\">bytes sent</div></div><div class=\"stat\"><div class=\"n\">");
    out.append(size(stats.bytes_received).as_str());
    out.append(
        "</div><div class=\"l\">bytes received</div></div></div><table><tr><th>By method</th><th></th></tr>",
    );
    out.append(render_method_rows(&stats.by_method).as_str());
    out.append("</table><table><tr><th>By status</th><th></th></tr>");
    out.append(render_status_rows(&stats.by_status, &stats.by_class).as_str());
    out.append("</table>");
    out
}

/// The times of one way of answering as a row.
pub open spec fn handler_row(h: HandlerType, t: Option<HandlerStatsView>) -> Seq<char> {
    match t {
        Some(t) => "<tr><td>"@ + handler_label(h) + "</td><td>"@ + decimal(t.count as int)
            + "</td><td>"@ + decimal(t.min_ms as int) + "ms</td><td>"@ + decimal(mean(t) as int)
            + "ms</td><td>"@ + decimal(t.max_ms as int) + "ms</td><td>"@ + decimal(
            percentile_of(t.samples, 50) as int,
        ) + "ms</td><td>"@ + decimal(percentile_of(t.samples, 95) as int) + "ms</td></tr>"@,
        None => ""@,
    }
}

fn render_handler_row(stats: &Stats, h: HandlerType) -> (r: String)
    requires
        stats.wf(),
    ensures
        r@ == handler_row(h, times_of(stats.by_handler@, h)),
{
    let n: usize = stats.by_handler.len();
    let mut i: usize = 0;
    while i < n
        invariant
            i <= n,
            n == stats.by_handler@.len(),
            stats.wf(),
            crate::servers::info::handler_at(stats.by_handler@, 0, h)
                == crate::servers::info::handler_at(stats.by_handler@, i as int, h),
        decreases n - i,
    {
        if stats.by_handler[i].0 == h {
            assert(stats.by_handler@[i as int].1.samples@.len() <= MAX_LATENCY_SAMPLES);
            let t = &stats.by_handler[i].1;
            let mut out = "<tr><td>".to_owned();
            out.append(h.label());
            out.append("</td><td>");
            out.append(decimal_of(t.count).as_str());
            out.append("</td><td>");
            out.append(decimal_of(t.min_ms).as_str());
            out.append("ms</td><td>");
            out.append(decimal_of(t.avg_ms()).as_str());
            out.append("ms</td><td>");
            out.append(decimal_of(t.max_ms).as_str());
            out.append("ms</td><td>");
            out.append(decimal_of(t.percentile(50)).as_str());
            out.append("ms</td><td>");
            out.append(decimal_of(t.percentile(95)).as_str());
            out.append("ms</td></tr>");
            return out;
        }
        i = i + 1;
    }
    "".to_owned()
}

/// The times of all ways of answering as rows.
pub open spec fn handler_rows(s: Stats) -> Seq<char> {
    let l = s.by_handler@;
    handler_row(HandlerType::StaticFile, times_of(l, HandlerType::StaticFile)) + handler_row(
        HandlerType::DirectoryListing,
        times_of(l, HandlerType::DirectoryListing),
    ) + handler_row(HandlerType::ScriptCgi, times_of(l, HandlerType::ScriptCgi)) + handler_row(
        HandlerType::CgiBin,
        times_of(l, HandlerType::CgiBin),
    ) + handler_row(HandlerType::FrameworkProxy, times_of(l, HandlerType::FrameworkProxy))
        + handler_row(HandlerType::HtaccessDenied, times_of(l, HandlerType::HtaccessDenied))
}

/// The part of the page on what answered.
pub open spec fn handler_table(s: Stats) -> Seq<char> {
    if handler_rows(s).len() == 0 {
        "<h2>By handler type</h2><p>No requests served yet.</p>"@
    } else {
        "<h2>By handler type</h2><table><tr><th>Handler</th><th>Count</th><th>Min</th><th>Avg</th><th>Max</th><th>p50</th><th>p95</th></tr>"@
            + handler_rows(s) + "</table>"@
    }
}

fn render_handler_table(stats: &Stats) -> (r: String)
    requires
        stats.wf(),
    ensures
        r@ == handler_table(*stats),
{
    let mut rows = render_handler_row(stats, HandlerType::StaticFile);
    rows.append(render_handler_row(stats, HandlerType::DirectoryListing).as_str());
    rows.append(render_handler_row(stats, HandlerType::ScriptCgi).as_str());
    rows.append(render_handler_row(stats, HandlerType::CgiBin).as_str());
    rows.append(render_handler_row(stats, HandlerType::FrameworkProxy).as_str());
    rows.append(render_handler_row(stats, HandlerType::HtaccessDenied).as_str());
    if rows.as_str().is_empty() {
        return "<h2>By handler type</h2><p>No requests served yet.</p>".to_owned();
    }
    let mut out =
        "<h2>By handler type</h2><table><tr><th>Handler</th><th>Count</th><th>Min</th><th>Avg</th><th>Max</th><th>p50</th><th>p95</th></tr>".to_owned();
    out.append(rows.as_str());
    out.append("</table>");
    out
}

/// Paths with their counts as rows.
pub open spec fn path_rows(p: Seq<(Seq<char>, u64)>) -> Seq<char>
    decreases p.len(),
{
    if p.len() == 0 {
        ""@
    } else {
        path_rows(p.drop_last()) + "<tr><td><code>"@ + escaped(p.last().0) + "</code></td><td>"@
            + decimal(p.last().1 as int) + "</td></tr>"@
    }
}

fn render_path_rows(list: &Vec<(String, u64)>) -> (r: String)
    ensures
        r@ == path_rows(list.deep_view()),
{
    let ghost p = list.deep_view();
    let n: usize = list.len();
    let mut out = "".to_owned();
    let mut i: usize = 0;
    assert(p.take(0) =~= Seq::empty());
    while i < n
        invariant
            i <= n,
            n == list@.len(),
            p == list.deep_view(),
            out@ == path_rows(p.take(i as int)),
        decreases n - i,
    {
        assert(p.take(i + 1).drop_last() =~= p.take(i as int));
        assert(p.take(i + 1).last() == (list@[i as int].0@, list@[i as int].1));
        out.append("<tr><td><code>");
        out.append(html_escape(list[i].0.as_str()).as_str());
        out.append("</code></td><td>");
        out.append(decimal_of(list[i].1).as_str());
        out.append("</td></tr>");
        i = i + 1;
    }
    assert(p.take(n as int) =~= p);
    out
}

/// The part of the page on the paths with the most requests.
pub open spec fn hot_paths(s: Stats) -> Seq<char> {
    "<h2>Hot paths</h2><table><tr><th>Most requested</th><th>Hits</th></tr>"@ + path_rows(
        most(pairs_of(s.top_paths.counts@), 10),
    ) + "</table><table><tr><th>Most error-prone</th><th>Errors</th></tr>"@ + path_rows(
        most(pairs_of(s.top_error_paths.counts@), 10),
    ) + "</table>"@
}

fn render_hot_paths(stats: &Stats) -> (r: String)
    ensures
        r@ == hot_paths(*stats),
{
    let top = stats.top_paths.top(10);
    let errors = stats.top_error_paths.top(10);
    let mut out = "<h2>Hot paths</h2><table><tr><th>Most requested</th><th>Hits</th></tr>".to_owned();
    out.append(render_path_rows(&top).as_str());
    out.append("</table><table><tr><th>Most error-prone</th><th>Errors</th></tr>");
    out.append(render_path_rows(&errors).as_str());
    out.append("</table>");
    out
}

/// The first line of a cause.
pub open spec fn summary(cause: Seq<char>) -> Seq<char> {
    if lines(cause).len() > 0 {
        lines(cause)[0]
    } else {
        ""@
    }
}

fn cause_summary(cause: &str) -> (r: String)
    ensures
        r@ == summary(cause@),
{
    let l = split_lines(cause);
    if l.len() > 0 {
        assert(l.deep_view()[0] == l@[0]@);
        l[0].clone()
    } else {
        "".to_owned()
    }
}

/// A cause in full.
pub open spec fn cause_detail(kind: IssueKind, cause: Seq<char>) -> Seq<char> {
    if kind == IssueKind::ScriptFailure || kind == IssueKind::MissingLanguageModule {
        "<pre>"@ + escaped(cause) + "</pre>"@
    } else {
        escaped(cause)
    }
}

fn render_cause_detail(kind: IssueKind, cause: &str) -> (r: String)
    ensures
        r@ == cause_detail(kind, cause@),
{
    if kind == IssueKind::ScriptFailure || kind == IssueKind::MissingLanguageModule {
        let mut out = "<pre>".to_owned();
        out.append(html_escape(cause).as_str());
        out.append("</pre>");
        out
    } else {
        html_escape(cause)
    }
}

/// The page that led to a request.
pub open spec fn referer_note(r: Option<Seq<char>>) -> Seq<char> {
    match r {
        Some(r) => " (referred from <code>"@ + escaped(r) + "</code>)"@,
        None => ""@,
    }
}

/// The occurrences of a problem as rows, the latest first.
pub open spec fn occurrence_rows(o: Seq<OccurrenceView>, i: int) -> Seq<char>
    decreases o.len() - i,
{
    if i < 0 || i >= o.len() {
        ""@
    } else {
        occurrence_rows(o, i + 1) + "<tr><td>"@ + http_date(o[i].unix_secs as int) + "</td><td>"@
            + escaped(o[i].method) + "</td><td><code>"@ + escaped(o[i].path)
            + "</code></td><td><code>"@ + escaped(o[i].target) + "</code></td><td>"@ + decimal(
            o[i].status as int,
        ) + "</td><td>"@ + referer_note(o[i].referer) + "</td></tr>"@
    }
}

fn render_occurrence_rows(list: &Vec<Occurrence>) -> (r: String)
    ensures
        r@ == occurrence_rows(list.deep_view(), 0),
{
    let ghost o = list.deep_view();
    let mut out = "".to_owned();
    let mut i: usize = list.len();
    while i > 0
        invariant
            i <= list@.len(),
            o == list.deep_view(),
            out@ == occurrence_rows(o, i as int),
        decreases i,
    {
        i = i - 1;
        assert(o[i as int] == list@[i as int].deep_view());
        let e = &list[i];
        out.append("<tr><td>");
        out.append(format_http_date(e.unix_secs).as_str());
        out.append("</td><td>");
        out.append(html_escape(e.method.as_str()).as_str());
        out.append("</td><td><code>");
        out.append(html_escape(e.path.as_str()).as_str());
        out.append("</code></td><td><code>");
        out.append(html_escape(e.target.as_str()).as_str());
        out.append("</code></td><td>");
        out.append(decimal_of(e.status as u64).as_str());
        out.append("</td><td>");
        let note = match &e.referer {
            Some(r) => {
                let mut n = " (referred from <code>".to_owned();
                n.append(html_escape(r.as_str()).as_str());
                n.append("</code>)");
                n
            },
            None => "".to_owned(),
        };
        out.append(note.as_str());
        out.append("</td></tr>");
    }
    out
}

/// A group of problems.
pub open spec fn group_html(g: IssueGroupView) -> Seq<char> {
    "<details><summary>["@ + issue_label(g.kind) + "] <code>"@ + escaped(g.path)
        + "</code> &mdash; "@ + escaped(summary(g.cause)) + " (&times;"@ + decimal(g.count as int)
        + ", last seen "@ + http_date(g.last_seen as int) + ")</summary><p>"@ + cause_detail(
        g.kind,
        g.cause,
    )
        + "</p><table><tr><th>When</th><th>Method</th><th>Path</th><th>Target</th><th>Status</th><th>Referer</th></tr>"@
        + occurrence_rows(g.occurrences, 0) + "</table></details>"@
}

fn render_group(g: &IssueGroup) -> (r: String)
    ensures
        r@ == group_html(g.deep_view()),
{
    let mut out = "<details><summary>[".to_owned();
    out.append(g.kind.label());
    out.append("] <code>");
    out.append(html_escape(g.path.as_str()).as_str());
    out.append("</code> &mdash; ");
    let first = cause_summary(g.cause.as_str());
    out.append(html_escape(first.as_str()).as_str());
    out.append(" (&times;");
    out.append(decimal_of(g.count).as_str());
    out.append(", last seen ");
    out.append(format_http_date(g.last_seen).as_str());
    out.append(")</summary><p>");
    out.append(render_cause_detail(g.kind, g.cause.as_str()).as_str());
    out.append(
        "</p><table><tr><th>When</th><th>Method</th><th>Path</th><th>Target</th><th>Status</th><th>Referer</th></tr>",
    );
    out.append(render_occurrence_rows(&g.occurrences).as_str());
    out.append("</table></details>");
    out
}

/// Groups of problems in an order.
pub open spec fn groups_html(g: Seq<IssueGroupView>, o: Seq<int>) -> Seq<char>
    decreases o.len(),
{
    if o.len() == 0 {
        ""@
    } else {
        groups_html(g, o.drop_last()) + group_html(g[o.last()])
    }
}

/// The order of groups: those that were met last come first.
pub open spec fn latest_first(g: Seq<IssueGroupView>) -> Seq<int> {
    order(g.map_values(|e: IssueGroupView| -(e.last_seen as int)))
}

/// The part of the page on problems.
pub open spec fn issues(g: Seq<IssueGroupView>) -> Seq<char> {
    if g.len() == 0 {
        "<h2>Issues</h2><p>No issues recorded since start.</p>"@
    } else {
        "<h2>Issues</h2>"@ + groups_html(g, latest_first(g))
    }
}

fn render_issues(groups: &Vec<IssueGroup>) -> (r: String)
    ensures
        r@ == issues(groups.deep_view()),
{
    let ghost g = groups.deep_view();
    let n: usize = groups.len();
    if n == 0 {
        return "<h2>Issues</h2><p>No issues recorded since start.</p>".to_owned();
    }
    let mut k: Vec<i128> = Vec::new();
    let mut i: usize = 0;
    while i < n
        invariant
            i <= n,
            n == groups@.len(),
            g == groups.deep_view(),
            k@.len() == i,
            forall|j: int| 0 <= j < i ==> #[trigger] k@[j] == -(g[j].last_seen as int),
        decreases n - i,
    {
        assert(g[i as int] == groups@[i as int].deep_view());
        k.push(-(groups[i].last_seen as i128));
        i = i + 1;
    }
    assert(key_values(k@) =~= g.map_values(|e: IssueGroupView| -(e.last_seen as int)));
    let order = order_of(&k);
    let ghost o = indices(order@);
    let mut body = "".to_owned();
    let mut j: usize = 0;
    assert(o.take(0) =~= Seq::empty());
    while j < n
        invariant
            j <= n,
            n == groups@.len(),
            n == order@.len(),
            g == groups.deep_view(),
            o == indices(order@),
            forall|x: int| 0 <= x < order@.len() ==> order@[x] < n,
            body@ == groups_html(g, o.take(j as int)),
        decreases n - j,
    {
        assert(o.take(j + 1).drop_last() =~= o.take(j as int));
        assert(o.take(j + 1).last() == order@[j as int] as int);
        let at: usize = order[j];
        assert(g[at as int] == groups@[at as int].deep_view());
        body.append(render_group(&groups[at]).as_str());
        j = j + 1;
    }
    assert(o.take(n as int) =~= o);
    let mut out = "<h2>Issues</h2>".to_owned();
    out.append(body.as_str());
    out
}

/// The page that shows what the server has done.
pub open spec fn dashboard(
    s: Stats,
    opts: ResolvedView,
    t: Option<ProxyTargetView>,
    now: u64,
    uptime: u64,
) -> Seq<char> {
    DASHBOARD_START@ + overview(
        s,
        opts,
        t,
        duration_text(uptime as int),
        http_date(s.start_wall_secs as int),
    ) + totals(s, now) + handler_table(s) + hot_paths(s) + issues(s.issues.groups.deep_view())
        + "</div></body></html>"@
}

/// The page that shows what the server has done up to now, after it has been up
/// for some seconds.
pub fn render_dashboard(
    stats: &Stats,
    opts: &Resolved,
    proxy_target: Option<&ProxyTarget>,
    now: u64,
    uptime: u64,
) -> (r: String)
    requires
        stats.wf(),
    ensures
        r@ == dashboard(*stats, opts@, proxy_target.deep_view(), now, uptime),
{
    let up = duration(uptime);
    let started = format_http_date(stats.start_wall_secs);
    let mut out = DASHBOARD_START.to_owned();
    out.append(render_overview(stats, opts, proxy_target, up.as_str(), started.as_str()).as_str());
    out.append(render_totals(stats, now).as_str());
    out.append(render_handler_table(stats).as_str());
    out.append(render_hot_paths(stats).as_str());
    out.append(render_issues(&stats.issues.groups).as_str());
    out.append("</div></body></html>");
    out
}

} // verus!
