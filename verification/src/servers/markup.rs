//! What the page that shows what the server has done never holds: a script.

use vstd::prelude::*;

use crate::configs::resolve::ResolvedView;
use crate::digits::{decimal, digit, two_digits, written};
use crate::servers::dashboard::{
    cause_detail, class_rows, dashboard, group_html, groups_html, handler_row, handler_rows,
    handler_table, hot_paths, issues, latest_first, level, method_rows, occurrence_rows, overview,
    path_rows, proxy_line, rate_text, referer_note, status_rows, summary, totals, DASHBOARD_START,
};
use crate::servers::info::{
    class_of, handler_label, in_window, is_class, issue_label, most, times_of, HandlerStatsView,
    HandlerType, IssueGroupView, IssueKind, OccurrenceView, Stats,
};
use crate::servers::pages::{escaped, escaped_text_is_no_markup};
use crate::servers::proxy::ProxyTargetView;
use crate::supports::calendar::{clock, date, date_of_day, http_date, month_name, weekday_name};
use crate::supports::format::{
    duration_text, grain, lemma_grain, nearest, size_text, tenths, unit_bytes, unit_name, unit_of,
};
use crate::table::{lemma_to_map_values, pairs_of};
use crate::text::{contains, stands_at};

verus! {

// ---------------------------------------------------------------------------
// Texts without a script
// ---------------------------------------------------------------------------

/// Whether what starts at a place of a text is no script: a `<` there is followed
/// by two characters that begin another tag.
pub open spec fn calm_at(s: Seq<char>, i: int) -> bool {
    s[i] == '<' ==> i + 2 < s.len() && !(s[i + 1] == 's' && s[i + 2] == 'c')
}

/// Whether no script starts in a text, nor in one that it is the beginning of.
#[verifier::opaque]
pub open spec fn calm(s: Seq<char>) -> bool {
    forall|i: int| 0 <= i < s.len() ==> #[trigger] calm_at(s, i)
}

broadcast proof fn lemma_calm_add(a: Seq<char>, b: Seq<char>)
    requires
        calm(a),
        calm(b),
    ensures
        #[trigger] calm(a + b),
{
    reveal(calm);
    let s = a + b;
    assert forall|i: int| 0 <= i < s.len() implies #[trigger] calm_at(s, i) by {
        if i < a.len() {
            assert(calm_at(a, i));
        } else {
            assert(calm_at(b, i - a.len()));
        }
    }
}

proof fn lemma_no_tags(s: Seq<char>)
    requires
        !s.contains('<'),
    ensures
        calm(s),
{
    reveal(calm);
    assert forall|i: int| 0 <= i < s.len() implies #[trigger] calm_at(s, i) by {
        assert(s.contains(s[i]));
    }
}

broadcast proof fn lemma_calm_escaped(s: Seq<char>)
    ensures
        #[trigger] calm(escaped(s)),
{
    escaped_text_is_no_markup(s);
    lemma_no_tags(escaped(s));
}

proof fn lemma_calm_empty()
    ensures
        calm(""@),
{
    reveal(calm);
    reveal_strlit("");
}

// ---------------------------------------------------------------------------
// Numbers and names
// ---------------------------------------------------------------------------

proof fn lemma_calm_written(n: int)
    requires
        n >= 0,
    ensures
        calm(written(n, 10)),
    decreases n,
{
    let d = digit(n % 10);
    assert(d != '<');
    let one = seq![d];
    assert(calm(one)) by {
        reveal(calm);
    }
    if n >= 10 {
        lemma_calm_written(n / 10);
        lemma_calm_add(written(n / 10, 10), one);
        assert(written(n, 10) =~= written(n / 10, 10) + one);
    }
}

broadcast proof fn lemma_calm_decimal(n: int)
    requires
        n >= 0,
    ensures
        #[trigger] calm(decimal(n)),
{
    lemma_calm_written(n);
}

broadcast proof fn lemma_calm_two_digits(n: int)
    requires
        n >= 0,
    ensures
        #[trigger] calm(two_digits(n)),
{
    lemma_calm_written(n);
    let zero = seq!['0'];
    assert(calm(zero)) by {
        reveal(calm);
    }
    lemma_calm_add(zero, decimal(n));
}

broadcast group group_calm {
    lemma_calm_add,
    lemma_calm_escaped,
    lemma_calm_decimal,
    lemma_calm_two_digits,
}

proof fn lemma_calm_weekday(w: int)
    ensures
        calm(weekday_name(w)),
{
    assert(calm("Sun"@)) by {
        reveal(calm);
        reveal_strlit("Sun");
    }
    assert(calm("Mon"@)) by {
        reveal(calm);
        reveal_strlit("Mon");
    }
    assert(calm("Tue"@)) by {
        reveal(calm);
        reveal_strlit("Tue");
    }
    assert(calm("Wed"@)) by {
        reveal(calm);
        reveal_strlit("Wed");
    }
    assert(calm("Thu"@)) by {
        reveal(calm);
        reveal_strlit("Thu");
    }
    assert(calm("Fri"@)) by {
        reveal(calm);
        reveal_strlit("Fri");
    }
    assert(calm("Sat"@)) by {
        reveal(calm);
        reveal_strlit("Sat");
    }
}

proof fn lemma_calm_month(m: int)
    ensures
        calm(month_name(m)),
{
    assert(calm("Jan"@)) by {
        reveal(calm);
        reveal_strlit("Jan");
    }
    assert(calm("Feb"@)) by {
        reveal(calm);
        reveal_strlit("Feb");
    }
    assert(calm("Mar"@)) by {
        reveal(calm);
        reveal_strlit("Mar");
    }
    assert(calm("Apr"@)) by {
        reveal(calm);
        reveal_strlit("Apr");
    }
    assert(calm("May"@)) by {
        reveal(calm);
        reveal_strlit("May");
    }
    assert(calm("Jun"@)) by {
        reveal(calm);
        reveal_strlit("Jun");
    }
    assert(calm("Jul"@)) by {
        reveal(calm);
        reveal_strlit("Jul");
    }
    assert(calm("Aug"@)) by {
        reveal(calm);
        reveal_strlit("Aug");
    }
    assert(calm("Sep"@)) by {
        reveal(calm);
        reveal_strlit("Sep");
    }
    assert(calm("Oct"@)) by {
        reveal(calm);
        reveal_strlit("Oct");
    }
    assert(calm("Nov"@)) by {
        reveal(calm);
        reveal_strlit("Nov");
    }
    assert(calm("Dec"@)) by {
        reveal(calm);
        reveal_strlit("Dec");
    }
}

proof fn lemma_calm_unit(u: int, one: bool)
    ensures
        calm(unit_name(u, one)),
{
    assert(calm("byte"@)) by {
        reveal(calm);
        reveal_strlit("byte");
    }
    assert(calm("bytes"@)) by {
        reveal(calm);
        reveal_strlit("bytes");
    }
    assert(calm("kilobyte"@)) by {
        reveal(calm);
        reveal_strlit("kilobyte");
    }
    assert(calm("kilobytes"@)) by {
        reveal(calm);
        reveal_strlit("kilobytes");
    }
    assert(calm("megabyte"@)) by {
        reveal(calm);
        reveal_strlit("megabyte");
    }
    assert(calm("megabytes"@)) by {
        reveal(calm);
        reveal_strlit("megabytes");
    }
    assert(calm("gigabyte"@)) by {
        reveal(calm);
        reveal_strlit("gigabyte");
    }
    assert(calm("gigabytes"@)) by {
        reveal(calm);
        reveal_strlit("gigabytes");
    }
    assert(calm("terabyte"@)) by {
        reveal(calm);
        reveal_strlit("terabyte");
    }
    assert(calm("terabytes"@)) by {
        reveal(calm);
        reveal_strlit("terabytes");
    }
}

proof fn lemma_calm_handler(h: HandlerType)
    ensures
        calm(handler_label(h)),
{
    assert(calm("static file"@)) by {
        reveal(calm);
        reveal_strlit("static file");
    }
    assert(calm("directory listing"@)) by {
        reveal(calm);
        reveal_strlit("directory listing");
    }
    assert(calm("script/CGI"@)) by {
        reveal(calm);
        reveal_strlit("script/CGI");
    }
    assert(calm("cgi-bin/"@)) by {
        reveal(calm);
        reveal_strlit("cgi-bin/");
    }
    assert(calm("framework proxy"@)) by {
        reveal(calm);
        reveal_strlit("framework proxy");
    }
    assert(calm(".htaccess-denied"@)) by {
        reveal(calm);
        reveal_strlit(".htaccess-denied");
    }
}

proof fn lemma_calm_kind(k: IssueKind)
    ensures
        calm(issue_label(k)),
{
    assert(calm("broken static reference"@)) by {
        reveal(calm);
        reveal_strlit("broken static reference");
    }
    assert(calm("script/CGI failure"@)) by {
        reveal(calm);
        reveal_strlit("script/CGI failure");
    }
    assert(calm("missing interpreter"@)) by {
        reveal(calm);
        reveal_strlit("missing interpreter");
    }
    assert(calm("missing language module"@)) by {
        reveal(calm);
        reveal_strlit("missing language module");
    }
    assert(calm("framework proxy error"@)) by {
        reveal(calm);
        reveal_strlit("framework proxy error");
    }
    assert(calm("access-control denial"@)) by {
        reveal(calm);
        reveal_strlit("access-control denial");
    }
    assert(calm("TLS/certificate issue"@)) by {
        reveal(calm);
        reveal_strlit("TLS/certificate issue");
    }
    assert(calm("config reload issue"@)) by {
        reveal(calm);
        reveal_strlit("config reload issue");
    }
}

proof fn lemma_calm_class(status: u16)
    ensures
        calm(class_of(status)),
{
    assert(calm("2xx"@)) by {
        reveal(calm);
        reveal_strlit("2xx");
    }
    assert(calm("3xx"@)) by {
        reveal(calm);
        reveal_strlit("3xx");
    }
    assert(calm("4xx"@)) by {
        reveal(calm);
        reveal_strlit("4xx");
    }
    assert(calm("5xx"@)) by {
        reveal(calm);
        reveal_strlit("5xx");
    }
    assert(calm("other"@)) by {
        reveal(calm);
        reveal_strlit("other");
    }
}

proof fn lemma_calm_date(t: int)
    requires
        t >= 0,
    ensures
        calm(http_date(t)),
{
    broadcast use group_calm;

    let n = t / 86400;
    date_of_day(n);
    lemma_calm_weekday((n + 4) % 7);
    lemma_calm_month(date(n).1);
    assert(calm(":"@)) by {
        reveal(calm);
        reveal_strlit(":");
    }
    assert(calm(", "@)) by {
        reveal(calm);
        reveal_strlit(", ");
    }
    assert(calm(" "@)) by {
        reveal(calm);
        reveal_strlit(" ");
    }
    assert(calm(" GMT"@)) by {
        reveal(calm);
        reveal_strlit(" GMT");
    }
    assert(calm(clock(t % 86400)));
}

proof fn lemma_calm_duration(t: int)
    requires
        t >= 0,
    ensures
        calm(duration_text(t)),
{
    broadcast use group_calm;

    assert(calm("second"@)) by {
        reveal(calm);
        reveal_strlit("second");
    }
    assert(calm("seconds"@)) by {
        reveal(calm);
        reveal_strlit("seconds");
    }
    assert(calm("minute"@)) by {
        reveal(calm);
        reveal_strlit("minute");
    }
    assert(calm("minutes"@)) by {
        reveal(calm);
        reveal_strlit("minutes");
    }
    assert(calm("hour"@)) by {
        reveal(calm);
        reveal_strlit("hour");
    }
    assert(calm("hours"@)) by {
        reveal(calm);
        reveal_strlit("hours");
    }
    assert(calm("day"@)) by {
        reveal(calm);
        reveal_strlit("day");
    }
    assert(calm("days"@)) by {
        reveal(calm);
        reveal_strlit("days");
    }
    assert(calm(" "@)) by {
        reveal(calm);
        reveal_strlit(" ");
    }
}

proof fn lemma_nearest(n: int)
    requires
        n >= 0,
    ensures
        nearest(n) >= 0,
{
    lemma_grain(n);
    let s = grain(n);
    let q = n / s;
    assert(q >= 0 && q * s >= 0 && (q + 1) * s >= 0) by (nonlinear_arith)
        requires
            n >= 0,
            s >= 1,
            q == n / s,
    ;
}

proof fn lemma_calm_size(n: int)
    requires
        n >= 0,
    ensures
        calm(size_text(n)),
{
    broadcast use group_calm;

    lemma_nearest(n);
    lemma_nearest(10 * nearest(n));
    let b = unit_bytes(unit_of(n));
    let t = tenths(n);
    assert(t >= 0) by (nonlinear_arith)
        requires
            t == (2 * nearest(10 * nearest(n)) + b) / (2 * b),
            nearest(10 * nearest(n)) >= 0,
            b >= 1,
    ;
    lemma_calm_unit(unit_of(n), n == 1);
    lemma_calm_unit(unit_of(n), t == 10);
    assert(calm(" "@)) by {
        reveal(calm);
        reveal_strlit(" ");
    }
    assert(calm("."@)) by {
        reveal(calm);
        reveal_strlit(".");
    }
}

// ---------------------------------------------------------------------------
// The parts of the page
// ---------------------------------------------------------------------------

proof fn lemma_calm_proxy(t: Option<ProxyTargetView>, pid: i32)
    ensures
        calm(proxy_line(t, pid)),
{
    broadcast use group_calm;

    assert(calm("<tr><td>Proxy target</td><td><code>"@)) by {
        reveal(calm);
        reveal_strlit("<tr><td>Proxy target</td><td><code>");
    }
    assert(calm("</code> &rarr; <code>"@)) by {
        reveal(calm);
        reveal_strlit("</code> &rarr; <code>");
    }
    assert(calm("</code> (prefix <code>"@)) by {
        reveal(calm);
        reveal_strlit("</code> (prefix <code>");
    }
    assert(calm("</code>, "@)) by {
        reveal(calm);
        reveal_strlit("</code>, ");
    }
    assert(calm("running, pid "@)) by {
        reveal(calm);
        reveal_strlit("running, pid ");
    }
    assert(calm("not running"@)) by {
        reveal(calm);
        reveal_strlit("not running");
    }
    assert(calm(")</td></tr>"@)) by {
        reveal(calm);
        reveal_strlit(")</td></tr>");
    }
    assert(calm("<tr><td>Proxy target</td><td>none configured</td></tr>"@)) by {
        reveal(calm);
        reveal_strlit("<tr><td>Proxy target</td><td>none configured</td></tr>");
    }
}

proof fn lemma_calm_overview(
    s: Stats,
    opts: ResolvedView,
    t: Option<ProxyTargetView>,
    uptime: Seq<char>,
    started: Seq<char>,
)
    requires
        calm(uptime),
        calm(started),
    ensures
        calm(overview(s, opts, t, uptime, started)),
{
    broadcast use group_calm;

    lemma_calm_proxy(t, s.proxy_child_pid);
    assert(calm("<h2>Overview</h2><table><tr><td>Listen</td><td><code>"@)) by {
        reveal(calm);
        reveal_strlit("<h2>Overview</h2><table><tr><td>Listen</td><td><code>");
    }
    assert(calm(":"@)) by {
        reveal(calm);
        reveal_strlit(":");
    }
    assert(calm("</code></td></tr><tr><td>TLS</td><td>"@)) by {
        reveal(calm);
        reveal_strlit("</code></td></tr><tr><td>TLS</td><td>");
    }
    assert(calm("enabled"@)) by {
        reveal(calm);
        reveal_strlit("enabled");
    }
    assert(calm("disabled"@)) by {
        reveal(calm);
        reveal_strlit("disabled");
    }
    assert(calm("</td></tr><tr><td>Base dir</td><td><code>"@)) by {
        reveal(calm);
        reveal_strlit("</td></tr><tr><td>Base dir</td><td><code>");
    }
    assert(calm("</code></td></tr>"@)) by {
        reveal(calm);
        reveal_strlit("</code></td></tr>");
    }
    assert(calm("<tr><td>Sandboxing / child-lifecycle posture</td><td>"@)) by {
        reveal(calm);
        reveal_strlit("<tr><td>Sandboxing / child-lifecycle posture</td><td>");
    }
    assert(calm("</td></tr><tr><td>Started</td><td>"@)) by {
        reveal(calm);
        reveal_strlit("</td></tr><tr><td>Started</td><td>");
    }
    assert(calm("</td></tr><tr><td>Uptime</td><td>"@)) by {
        reveal(calm);
        reveal_strlit("</td></tr><tr><td>Uptime</td><td>");
    }
    assert(calm("</td></tr></table>"@)) by {
        reveal(calm);
        reveal_strlit("</td></tr></table>");
    }
}

proof fn lemma_calm_methods(p: Seq<(Seq<char>, u64)>)
    ensures
        calm(method_rows(p)),
    decreases p.len(),
{
    broadcast use group_calm;

    lemma_calm_empty();
    if p.len() > 0 {
        lemma_calm_methods(p.drop_last());
    }
    assert(calm("<tr><td>"@)) by {
        reveal(calm);
        reveal_strlit("<tr><td>");
    }
    assert(calm("</td><td>"@)) by {
        reveal(calm);
        reveal_strlit("</td><td>");
    }
    assert(calm("</td></tr>"@)) by {
        reveal(calm);
        reveal_strlit("</td></tr>");
    }
}

proof fn lemma_calm_statuses(p: Seq<(u64, u64)>)
    ensures
        calm(status_rows(p)),
    decreases p.len(),
{
    broadcast use group_calm;

    lemma_calm_empty();
    if p.len() > 0 {
        lemma_calm_statuses(p.drop_last());
    }
    assert(calm("<tr><td>"@)) by {
        reveal(calm);
        reveal_strlit("<tr><td>");
    }
    assert(calm("</td><td>"@)) by {
        reveal(calm);
        reveal_strlit("</td><td>");
    }
    assert(calm("</td></tr>"@)) by {
        reveal(calm);
        reveal_strlit("</td></tr>");
    }
}

proof fn lemma_calm_classes(start: Seq<char>, p: Seq<(Seq<char>, u64)>)
    requires
        calm(start),
        forall|i: int| 0 <= i < p.len() ==> is_class(#[trigger] p[i].0),
    ensures
        calm(class_rows(start, p)),
    decreases p.len(),
{
    broadcast use group_calm;

    if p.len() > 0 {
        let q = p.drop_last();
        assert forall|i: int| 0 <= i < q.len() implies is_class(#[trigger] q[i].0) by {
            assert(q[i] == p[i]);
        }
        lemma_calm_classes(start, q);
        assert(is_class(p[p.len() - 1].0));
        let status = choose|status: u16| #[trigger] class_of(status) == p.last().0;
        lemma_calm_class(status);
    }
    assert(calm("<tr><td><span class=\"badge\">"@)) by {
        reveal(calm);
        reveal_strlit("<tr><td><span class=\"badge\">");
    }
    assert(calm("</span></td><td>"@)) by {
        reveal(calm);
        reveal_strlit("</span></td><td>");
    }
    assert(calm("</td></tr>"@)) by {
        reveal(calm);
        reveal_strlit("</td></tr>");
    }
}

proof fn lemma_calm_totals(s: Stats, now: u64)
    requires
        s.wf(),
    ensures
        calm(totals(s, now)),
{
    broadcast use group_calm;

    let p = pairs_of(s.by_class@);
    assert forall|i: int| 0 <= i < p.len() implies is_class(#[trigger] p[i].0) by {
        lemma_to_map_values(p, i);
    }
    lemma_calm_methods(pairs_of(s.by_method@));
    lemma_calm_statuses(s.by_status@);
    lemma_calm_classes(status_rows(s.by_status@), p);
    lemma_calm_size(s.bytes_sent as int);
    lemma_calm_size(s.bytes_received as int);
    let n = in_window(s.rate.buckets@, now) % 0x1_0000_0000_0000_0000;
    assert(calm("."@)) by {
        reveal(calm);
        reveal_strlit(".");
    }
    assert(calm(rate_text(n)));
    assert(calm(level(s.in_flight)));
    assert(calm(level(s.active_upstream)));
    assert(calm("<h2>Request/response stats</h2><div class=\"grid\"><div class=\"stat\"><div class=\"n\">"@)) by {
        reveal(calm);
        reveal_strlit("<h2>Request/response stats</h2><div class=\"grid\"><div class=\"stat\"><div class=\"n\">");
    }
    assert(calm("</div><div class=\"l\">total requests</div></div><div class=\"stat\"><div class=\"n\">"@)) by {
        reveal(calm);
        reveal_strlit("</div><div class=\"l\">total requests</div></div><div class=\"stat\"><div class=\"n\">");
    }
    assert(calm("</div><div class=\"l\">in-flight</div></div><div class=\"stat\"><div class=\"n\">"@)) by {
        reveal(calm);
        reveal_strlit("</div><div class=\"l\">in-flight</div></div><div class=\"stat\"><div class=\"n\">");
    }
    assert(calm("</div><div class=\"l\">active upstream conns</div></div><div class=\"stat\"><div class=\"n\">"@)) by {
        reveal(calm);
        reveal_strlit("</div><div class=\"l\">active upstream conns</div></div><div class=\"stat\"><div class=\"n\">");
    }
    assert(calm("/s</div><div class=\"l\">requests/sec (60s window)</div></div><div class=\"stat\"><div class=\"n\">"@)) by {
        reveal(calm);
        reveal_strlit("/s</div><div class=\"l\">requests/sec (60s window)</div></div><div class=\"stat\"><div class=\"n\">");
    }
    assert(calm("</div><div class=\"l\">bytes sent</div></div><div class=\"stat\"><div class=\"n\">"@)) by {
        reveal(calm);
        reveal_strlit("</div><div class=\"l\">bytes sent</div></div><div class=\"stat\"><div class=\"n\">");
    }
    assert(calm("</div><div class=\"l\">bytes received</div></div></div><table><tr><th>By method</th><th></th></tr>"@)) by {
        reveal(calm);
        reveal_strlit("</div><div class=\"l\">bytes received</div></div></div><table><tr><th>By method</th><th></th></tr>");
    }
    assert(calm("</table><table><tr><th>By status</th><th></th></tr>"@)) by {
        reveal(calm);
        reveal_strlit("</table><table><tr><th>By status</th><th></th></tr>");
    }
    assert(calm("</table>"@)) by {
        reveal(calm);
        reveal_strlit("</table>");
    }
}

proof fn lemma_calm_handler_row(h: HandlerType, t: Option<HandlerStatsView>)
    ensures
        calm(handler_row(h, t)),
{
    broadcast use group_calm;

    lemma_calm_empty();
    lemma_calm_handler(h);
    assert(calm("<tr><td>"@)) by {
        reveal(calm);
        reveal_strlit("<tr><td>");
    }
    assert(calm("</td><td>"@)) by {
        reveal(calm);
        reveal_strlit("</td><td>");
    }
    assert(calm("ms</td><td>"@)) by {
        reveal(calm);
        reveal_strlit("ms</td><td>");
    }
    assert(calm("ms</td></tr>"@)) by {
        reveal(calm);
        reveal_strlit("ms</td></tr>");
    }
}

proof fn lemma_calm_handlers(s: Stats)
    ensures
        calm(handler_table(s)),
{
    broadcast use group_calm;

    let l = s.by_handler@;
    lemma_calm_handler_row(HandlerType::StaticFile, times_of(l, HandlerType::StaticFile));
    lemma_calm_handler_row(
        HandlerType::DirectoryListing,
        times_of(l, HandlerType::DirectoryListing),
    );
    lemma_calm_handler_row(HandlerType::ScriptCgi, times_of(l, HandlerType::ScriptCgi));
    lemma_calm_handler_row(HandlerType::CgiBin, times_of(l, HandlerType::CgiBin));
    lemma_calm_handler_row(HandlerType::FrameworkProxy, times_of(l, HandlerType::FrameworkProxy));
    lemma_calm_handler_row(HandlerType::HtaccessDenied, times_of(l, HandlerType::HtaccessDenied));
    assert(calm(handler_rows(s)));
    assert(calm("<h2>By handler type</h2><p>No requests served yet.</p>"@)) by {
        reveal(calm);
        reveal_strlit("<h2>By handler type</h2><p>No requests served yet.</p>");
    }
    assert(calm("<h2>By handler type</h2><table><tr><th>Handler</th><th>Count</th><th>Min</th><th>Avg</th><th>Max</th><th>p50</th><th>p95</th></tr>"@)) by {
        reveal(calm);
        reveal_strlit("<h2>By handler type</h2><table><tr><th>Handler</th><th>Count</th><th>Min</th><th>Avg</th><th>Max</th><th>p50</th><th>p95</th></tr>");
    }
    assert(calm("</table>"@)) by {
        reveal(calm);
        reveal_strlit("</table>");
    }
}

proof fn lemma_calm_paths(p: Seq<(Seq<char>, u64)>)
    ensures
        calm(path_rows(p)),
    decreases p.len(),
{
    broadcast use group_calm;

    lemma_calm_empty();
    if p.len() > 0 {
        lemma_calm_paths(p.drop_last());
    }
    assert(calm("<tr><td><code>"@)) by {
        reveal(calm);
        reveal_strlit("<tr><td><code>");
    }
    assert(calm("</code></td><td>"@)) by {
        reveal(calm);
        reveal_strlit("</code></td><td>");
    }
    assert(calm("</td></tr>"@)) by {
        reveal(calm);
        reveal_strlit("</td></tr>");
    }
}

proof fn lemma_calm_hot_paths(s: Stats)
    ensures
        calm(hot_paths(s)),
{
    broadcast use group_calm;

    lemma_calm_paths(most(pairs_of(s.top_paths.counts@), 10));
    lemma_calm_paths(most(pairs_of(s.top_error_paths.counts@), 10));
    assert(calm("<h2>Hot paths</h2><table><tr><th>Most requested</th><th>Hits</th></tr>"@)) by {
        reveal(calm);
        reveal_strlit("<h2>Hot paths</h2><table><tr><th>Most requested</th><th>Hits</th></tr>");
    }
    assert(calm("</table><table><tr><th>Most error-prone</th><th>Errors</th></tr>"@)) by {
        reveal(calm);
        reveal_strlit("</table><table><tr><th>Most error-prone</th><th>Errors</th></tr>");
    }
    assert(calm("</table>"@)) by {
        reveal(calm);
        reveal_strlit("</table>");
    }
}

proof fn lemma_calm_referer(r: Option<Seq<char>>)
    ensures
        calm(referer_note(r)),
{
    broadcast use group_calm;

    lemma_calm_empty();
    assert(calm(" (referred from <code>"@)) by {
        reveal(calm);
        reveal_strlit(" (referred from <code>");
    }
    assert(calm("</code>)"@)) by {
        reveal(calm);
        reveal_strlit("</code>)");
    }
}

proof fn lemma_calm_row(before: Seq<char>, date: Seq<char>, o: OccurrenceView, note: Seq<char>)
    requires
        calm(before),
        calm(date),
        calm(note),
    ensures
        calm(
            before + "<tr><td>"@ + date + "</td><td>"@ + escaped(o.method) + "</td><td><code>"@
                + escaped(o.path) + "</code></td><td><code>"@ + escaped(o.target)
                + "</code></td><td>"@ + decimal(o.status as int) + "</td><td>"@ + note
                + "</td></tr>"@,
        ),
{
    broadcast use group_calm;

    assert(calm("<tr><td>"@)) by {
        reveal(calm);
        reveal_strlit("<tr><td>");
    }
    assert(calm("</td><td>"@)) by {
        reveal(calm);
        reveal_strlit("</td><td>");
    }
    assert(calm("</td><td><code>"@)) by {
        reveal(calm);
        reveal_strlit("</td><td><code>");
    }
    assert(calm("</code></td><td><code>"@)) by {
        reveal(calm);
        reveal_strlit("</code></td><td><code>");
    }
    assert(calm("</code></td><td>"@)) by {
        reveal(calm);
        reveal_strlit("</code></td><td>");
    }
    assert(calm("</td></tr>"@)) by {
        reveal(calm);
        reveal_strlit("</td></tr>");
    }
}

proof fn lemma_calm_occurrences(o: Seq<OccurrenceView>, i: int)
    ensures
        calm(occurrence_rows(o, i)),
    decreases o.len() - i,
{
    if 0 <= i < o.len() {
        lemma_calm_occurrences(o, i + 1);
        lemma_calm_date(o[i].unix_secs as int);
        lemma_calm_referer(o[i].referer);
        lemma_calm_row(
            occurrence_rows(o, i + 1),
            http_date(o[i].unix_secs as int),
            o[i],
            referer_note(o[i].referer),
        );
    } else {
        lemma_calm_empty();
    }
}

proof fn lemma_calm_cause(kind: IssueKind, cause: Seq<char>)
    ensures
        calm(cause_detail(kind, cause)),
{
    broadcast use group_calm;

    assert(calm("<pre>"@)) by {
        reveal(calm);
        reveal_strlit("<pre>");
    }
    assert(calm("</pre>"@)) by {
        reveal(calm);
        reveal_strlit("</pre>");
    }
}

proof fn lemma_calm_details(
    label: Seq<char>,
    path: Seq<char>,
    line: Seq<char>,
    count: Seq<char>,
    date: Seq<char>,
    cause: Seq<char>,
    rows: Seq<char>,
)
    requires
        calm(label),
        calm(path),
        calm(line),
        calm(count),
        calm(date),
        calm(cause),
        calm(rows),
    ensures
        calm(
            "<details><summary>["@ + label + "] <code>"@ + path + "</code> &mdash; "@ + line
                + " (&times;"@ + count + ", last seen "@ + date + ")</summary><p>"@ + cause
                + "</p><table><tr><th>When</th><th>Method</th><th>Path</th><th>Target</th><th>Status</th><th>Referer</th></tr>"@
                + rows + "</table></details>"@,
        ),
{
    broadcast use lemma_calm_add;

    assert(calm("<details><summary>["@)) by {
        reveal(calm);
        reveal_strlit("<details><summary>[");
    }
    assert(calm("] <code>"@)) by {
        reveal(calm);
        reveal_strlit("] <code>");
    }
    assert(calm("</code> &mdash; "@)) by {
        reveal(calm);
        reveal_strlit("</code> &mdash; ");
    }
    assert(calm(" (&times;"@)) by {
        reveal(calm);
        reveal_strlit(" (&times;");
    }
    assert(calm(", last seen "@)) by {
        reveal(calm);
        reveal_strlit(", last seen ");
    }
    assert(calm(")</summary><p>"@)) by {
        reveal(calm);
        reveal_strlit(")</summary><p>");
    }
    assert(calm("</p><table><tr><th>When</th><th>Method</th><th>Path</th><th>Target</th><th>Status</th><th>Referer</th></tr>"@)) by {
        reveal(calm);
        reveal_strlit("</p><table><tr><th>When</th><th>Method</th><th>Path</th><th>Target</th><th>Status</th><th>Referer</th></tr>");
    }
    assert(calm("</table></details>"@)) by {
        reveal(calm);
        reveal_strlit("</table></details>");
    }
}

proof fn lemma_calm_group(g: IssueGroupView)
    ensures
        calm(group_html(g)),
{
    lemma_calm_kind(g.kind);
    lemma_calm_escaped(g.path);
    lemma_calm_escaped(summary(g.cause));
    lemma_calm_decimal(g.count as int);
    lemma_calm_date(g.last_seen as int);
    lemma_calm_cause(g.kind, g.cause);
    lemma_calm_occurrences(g.occurrences, 0);
    lemma_calm_details(
        issue_label(g.kind),
        escaped(g.path),
        escaped(summary(g.cause)),
        decimal(g.count as int),
        http_date(g.last_seen as int),
        cause_detail(g.kind, g.cause),
        occurrence_rows(g.occurrences, 0),
    );
}

proof fn lemma_calm_groups(g: Seq<IssueGroupView>, o: Seq<int>)
    ensures
        calm(groups_html(g, o)),
    decreases o.len(),
{
    broadcast use group_calm;

    lemma_calm_empty();
    if o.len() > 0 {
        lemma_calm_groups(g, o.drop_last());
        lemma_calm_group(g[o.last()]);
    }
}

proof fn lemma_calm_issues(g: Seq<IssueGroupView>)
    ensures
        calm(issues(g)),
{
    assert(calm("<h2>Issues</h2><p>No issues recorded since start.</p>"@)) by {
        reveal(calm);
        reveal_strlit("<h2>Issues</h2><p>No issues recorded since start.</p>");
    }
    assert(calm("<h2>Issues</h2>"@)) by {
        reveal(calm);
        reveal_strlit("<h2>Issues</h2>");
    }
    if g.len() > 0 {
        lemma_calm_groups(g, latest_first(g));
        lemma_calm_add("<h2>Issues</h2>"@, groups_html(g, latest_first(g)));
    }
}

#[verifier::rlimit(100)]
proof fn lemma_calm_start()
    ensures
        calm(DASHBOARD_START@),
{
    reveal(calm);
    reveal_strlit(
        "<!doctype html><html><head><meta charset=\"utf-8\"><meta name=\"viewport\" content=\"width=device-width, initial-scale=1\"><title>cashttpd /server-info</title><style>body{font-family:system-ui,sans-serif;margin:0;padding:2rem 1.25rem;background:#0f172a;color:#e2e8f0;min-height:100vh;box-sizing:border-box}h1{font-size:1.75rem;margin:0 0 1rem}h2{font-size:1.15rem;margin:2rem 0 .5rem;color:#94a3b8}.card{max-width:56rem;margin:0 auto}.grid{display:grid;grid-template-columns:repeat(auto-fit,minmax(11rem,1fr));gap:.75rem}.stat{background:#1e293b;border-radius:.5rem;padding:.75rem 1rem}.stat .n{font-size:1.4rem;font-weight:600}.stat .l{font-size:.8rem;color:#94a3b8}table{width:100%;border-collapse:collapse;font-size:.9rem}th,td{text-align:left;padding:.35rem .5rem;border-bottom:1px solid #334155}code{background:#334155;padding:.1rem .35rem;border-radius:.25rem;word-break:break-all}details{background:#1e293b;border-radius:.5rem;padding:.5rem .75rem;margin:.5rem 0}summary{cursor:pointer}pre{white-space:pre-wrap;word-break:break-word;background:#0f172a;padding:.5rem;border-radius:.35rem;overflow-x:auto}.badge{display:inline-block;padding:.05rem .4rem;border-radius:.25rem;font-size:.75rem;background:#334155}</style></head><body><div class=\"card\"><h1>cashttpd /server-info</h1>",
    );
}

proof fn lemma_start_names_the_page()
    ensures
        stands_at(DASHBOARD_START@, "/server-info"@, 133),
{
    reveal_strlit("/server-info");
    reveal_strlit(
        "<!doctype html><html><head><meta charset=\"utf-8\"><meta name=\"viewport\" content=\"width=device-width, initial-scale=1\"><title>cashttpd /server-info</title><style>body{font-family:system-ui,sans-serif;margin:0;padding:2rem 1.25rem;background:#0f172a;color:#e2e8f0;min-height:100vh;box-sizing:border-box}h1{font-size:1.75rem;margin:0 0 1rem}h2{font-size:1.15rem;margin:2rem 0 .5rem;color:#94a3b8}.card{max-width:56rem;margin:0 auto}.grid{display:grid;grid-template-columns:repeat(auto-fit,minmax(11rem,1fr));gap:.75rem}.stat{background:#1e293b;border-radius:.5rem;padding:.75rem 1rem}.stat .n{font-size:1.4rem;font-weight:600}.stat .l{font-size:.8rem;color:#94a3b8}table{width:100%;border-collapse:collapse;font-size:.9rem}th,td{text-align:left;padding:.35rem .5rem;border-bottom:1px solid #334155}code{background:#334155;padding:.1rem .35rem;border-radius:.25rem;word-break:break-all}details{background:#1e293b;border-radius:.5rem;padding:.5rem .75rem;margin:.5rem 0}summary{cursor:pointer}pre{white-space:pre-wrap;word-break:break-word;background:#0f172a;padding:.5rem;border-radius:.35rem;overflow-x:auto}.badge{display:inline-block;padding:.05rem .4rem;border-radius:.25rem;font-size:.75rem;background:#334155}</style></head><body><div class=\"card\"><h1>cashttpd /server-info</h1>",
    );
    assert(DASHBOARD_START@.subrange(133, 145) =~= "/server-info"@);
}

proof fn lemma_stands_before(a: Seq<char>, b: Seq<char>, p: Seq<char>, i: int)
    requires
        stands_at(a, p, i),
    ensures
        stands_at(a + b, p, i),
{
    assert((a + b).subrange(i, i + p.len()) =~= a.subrange(i, i + p.len()));
}

proof fn lemma_stands_after(a: Seq<char>, b: Seq<char>, p: Seq<char>, i: int)
    requires
        stands_at(b, p, i),
    ensures
        stands_at(a + b, p, a.len() + i),
{
    let j = a.len() + i;
    assert((a + b).subrange(j, j + p.len()) =~= b.subrange(i, i + p.len()));
}

// ---------------------------------------------------------------------------
// Laws
// ---------------------------------------------------------------------------

/// Whatever was recorded and whatever is configured, no script starts on the page:
/// what comes from a request, from a configuration or from a problem stands on it
/// as text only.
pub proof fn the_page_holds_no_script(
    s: Stats,
    opts: ResolvedView,
    t: Option<ProxyTargetView>,
    now: u64,
    uptime: u64,
)
    requires
        s.wf(),
    ensures
        !contains(dashboard(s, opts, t, now, uptime), "<script"@),
{
    broadcast use group_calm;

    lemma_calm_start();
    lemma_calm_duration(uptime as int);
    lemma_calm_date(s.start_wall_secs as int);
    lemma_calm_overview(
        s,
        opts,
        t,
        duration_text(uptime as int),
        http_date(s.start_wall_secs as int),
    );
    lemma_calm_totals(s, now);
    lemma_calm_handlers(s);
    lemma_calm_hot_paths(s);
    lemma_calm_issues(s.issues.groups.deep_view());
    assert(calm("</div></body></html>"@)) by {
        reveal(calm);
        reveal_strlit("</div></body></html>");
    }
    let d = dashboard(s, opts, t, now, uptime);
    assert(calm(d));
    reveal(calm);
    reveal_strlit("<script");
    let p = "<script"@;
    assert forall|i: int| !stands_at(d, p, i) by {
        if stands_at(d, p, i) {
            assert(calm_at(d, i));
            assert(d.subrange(i, i + p.len())[0] == d[i]);
            assert(d.subrange(i, i + p.len())[1] == d[i + 1]);
            assert(d.subrange(i, i + p.len())[2] == d[i + 2]);
        }
    }
}

/// The page names itself, and says so where no problem has been recorded.
pub proof fn the_page_tells_of_no_issues(
    s: Stats,
    opts: ResolvedView,
    t: Option<ProxyTargetView>,
    now: u64,
    uptime: u64,
)
    ensures
        contains(dashboard(s, opts, t, now, uptime), "/server-info"@),
        s.issues.groups.deep_view().len() == 0 ==> contains(
            dashboard(s, opts, t, now, uptime),
            "No issues recorded"@,
        ),
{
    let o = overview(s, opts, t, duration_text(uptime as int), http_date(s.start_wall_secs as int));
    let a = DASHBOARD_START@ + o;
    let b = a + totals(s, now);
    let c = b + handler_table(s);
    let e = c + hot_paths(s);
    let g = s.issues.groups.deep_view();
    let f = e + issues(g);
    let end = "</div></body></html>"@;
    let p = "/server-info"@;
    lemma_start_names_the_page();
    lemma_stands_before(DASHBOARD_START@, o, p, 133);
    lemma_stands_before(a, totals(s, now), p, 133);
    lemma_stands_before(b, handler_table(s), p, 133);
    lemma_stands_before(c, hot_paths(s), p, 133);
    lemma_stands_before(e, issues(g), p, 133);
    lemma_stands_before(f, end, p, 133);
    if g.len() == 0 {
        let q = "No issues recorded"@;
        reveal_strlit("No issues recorded");
        reveal_strlit("<h2>Issues</h2><p>No issues recorded since start.</p>");
        assert(issues(g).subrange(18, 36) =~= q);
        lemma_stands_after(e, issues(g), q, 18);
        lemma_stands_before(f, end, q, e.len() as int + 18);
    }
}

} // verus!
