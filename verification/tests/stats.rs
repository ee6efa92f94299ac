use cashttpd::servers::dashboard::{render_dashboard, render_rate};
use cashttpd::servers::info::{
    status_class, HandlerStats, HandlerType, IssueKind, PathCounter, RateWindow, Stats,
    MAX_ISSUE_GROUPS, MAX_LATENCY_SAMPLES, MAX_OCCURRENCES_PER_GROUP, MAX_TRACKED_PATHS,
};
use cashttpd::servers::proxy::ProxyTarget;
use cashttpd::servers::startup::fallback_defaults;

const NOW: u64 = 1_700_000_000;

#[test]
fn records_totals_by_method_and_status_and_class() {
    let mut stats = Stats::new("test posture", NOW);
    stats.record_totals("GET", "/a", 200, 100, 0, NOW);
    stats.record_totals("GET", "/b", 404, 0, 0, NOW);
    stats.record_totals("POST", "/c", 500, 10, 20, NOW);
    assert_eq!(stats.total_requests(), 3);
    assert_eq!(stats.by_method.get("GET"), Some(&2));
    assert_eq!(stats.by_method.get("POST"), Some(&1));
    let status = |s: u64| stats.by_status.iter().find(|(k, _)| *k == s).map(|(_, n)| *n);
    assert_eq!(status(200), Some(1));
    assert_eq!(status(404), Some(1));
    assert_eq!(stats.by_class.get("2xx"), Some(&1));
    assert_eq!(stats.by_class.get("4xx"), Some(&1));
    assert_eq!(stats.by_class.get("5xx"), Some(&1));
    assert_eq!(stats.bytes_sent, 110);
    assert_eq!(stats.bytes_received, 20);
}

fn handler(stats: &Stats, kind: HandlerType) -> &HandlerStats {
    stats.by_handler.iter().find(|(k, _)| *k == kind).map(|(_, h)| h).unwrap()
}

#[test]
fn records_handler_type_counts_and_latency() {
    let mut stats = Stats::new("test posture", NOW);
    stats.record_handler(HandlerType::StaticFile, 10);
    stats.record_handler(HandlerType::StaticFile, 20);
    stats.record_handler(HandlerType::ScriptCgi, 5);
    let sf = handler(&stats, HandlerType::StaticFile);
    assert_eq!(sf.count, 2);
    assert_eq!(sf.min_ms, 10);
    assert_eq!(sf.max_ms, 20);
    assert_eq!(sf.avg_ms(), 15);
    assert_eq!(handler(&stats, HandlerType::ScriptCgi).count, 1);
}

#[test]
fn issue_grouping_increments_occurrence_count_not_new_entries() {
    let mut stats = Stats::new("test posture", NOW);
    for _ in 0..5 {
        stats.record_issue(
            IssueKind::BrokenStaticRef,
            "/css/main.css",
            "404 not found",
            "GET",
            "/base/css/main.css",
            404,
            Some("/index.html".to_string()),
            NOW,
        );
    }
    assert_eq!(stats.issues.groups.len(), 1);
    let group = &stats.issues.groups[0];
    assert_eq!(group.count, 5);
    assert!(group.occurrences.len() <= MAX_OCCURRENCES_PER_GROUP);
}

#[test]
fn issue_grouping_keeps_distinct_cause_separate() {
    let mut stats = Stats::new("test posture", NOW);
    for cause in ["exit code 1", "exit code 2"] {
        stats.record_issue(
            IssueKind::ScriptFailure,
            "/cgi-bin/a.pl",
            cause,
            "GET",
            "/base/cgi-bin/a.pl",
            500,
            None,
            NOW,
        );
    }
    assert_eq!(stats.issues.groups.len(), 2);
}

#[test]
fn in_flight_guard_increments_and_decrements() {
    let mut stats = Stats::new("test posture", NOW);
    assert_eq!(stats.in_flight, 0);
    let g = stats.in_flight_guard();
    assert_eq!(stats.in_flight, 1);
    g.release(&mut stats);
    assert_eq!(stats.in_flight, 0);
}

#[test]
fn upstream_guard_increments_and_decrements() {
    let mut stats = Stats::new("test posture", NOW);
    let g = stats.upstream_guard();
    assert_eq!(stats.active_upstream, 1);
    g.release(&mut stats);
    assert_eq!(stats.active_upstream, 0);
}

#[test]
fn render_dashboard_does_not_panic_on_empty_stats() {
    let stats = Stats::new("unavailable on this platform", NOW);
    let opts = fallback_defaults(&None, "/tmp", "linux", "x86_64");
    let html = render_dashboard(&stats, &opts, None, NOW, 0);
    assert!(html.contains("/server-info"));
    assert!(html.contains("No issues recorded"));
}

#[test]
fn render_dashboard_does_not_panic_on_populated_stats() {
    let mut stats = Stats::new("active (best-effort)", NOW);
    let opts = fallback_defaults(&None, "/tmp", "linux", "x86_64");
    stats.record_totals("GET", "/index.html", 200, 512, 0, NOW);
    stats.record_totals("GET", "/missing.css", 404, 0, 0, NOW);
    stats.record_handler(HandlerType::StaticFile, 3);
    stats.record_handler(HandlerType::ScriptCgi, 40);
    stats.record_issue(
        IssueKind::BrokenStaticRef,
        "/missing.css",
        "404 not found",
        "GET",
        "/base/missing.css",
        404,
        Some("/index.html".to_string()),
        NOW,
    );
    stats.record_issue(
        IssueKind::ScriptFailure,
        "/cgi-bin/broken.pl",
        "exited with status code 1\nsome stderr output",
        "GET",
        "/base/cgi-bin/broken.pl",
        500,
        None,
        NOW,
    );
    let target = ProxyTarget {
        kind: "vite".to_string(),
        command: "npm run dev".to_string(),
        upstream: "127.0.0.1:5173".to_string(),
        path_prefix: "/".to_string(),
    };
    stats.set_proxy_child_pid(1234);
    let html = render_dashboard(&stats, &opts, Some(&target), NOW, 3661);
    assert!(html.contains("missing.css"));
    assert!(html.contains("some stderr output"));
    assert!(html.contains("1234"));
    assert!(html.contains("vite"));
}

#[test]
fn issue_list_evicts_oldest_group_on_overflow() {
    let mut stats = Stats::new("test posture", NOW);
    for i in 0..(MAX_ISSUE_GROUPS + 5) {
        stats.record_issue(
            IssueKind::BrokenStaticRef,
            &format!("/path-{i}"),
            "404 not found",
            "GET",
            &format!("/base/path-{i}"),
            404,
            None,
            NOW + i as u64,
        );
    }
    assert!(stats.issues.groups.len() <= MAX_ISSUE_GROUPS);
    assert!(!stats.issues.groups.iter().any(|g| g.path == "/path-0"));
    assert!(stats.issues.groups.iter().any(|g| g.path == format!("/path-{}", MAX_ISSUE_GROUPS + 4)));
}

#[test]
fn top_paths_bounded_and_sorted() {
    let mut stats = Stats::new("test posture", NOW);
    for i in 0..5 {
        for _ in 0..(i + 1) {
            stats.record_totals("GET", &format!("/p{i}"), 200, 0, 0, NOW);
        }
    }
    let top = stats.top_paths.top(2);
    assert_eq!(top.len(), 2);
    assert_eq!(top[0].0, "/p4");
    assert_eq!(top[1].0, "/p3");
    assert_eq!(top[0].1, 5);
}

#[test]
fn occurrences_of_a_problem_are_bounded() {
    let mut stats = Stats::new("test posture", NOW);
    for i in 0..50u64 {
        stats.record_issue(
            IssueKind::TlsIssue,
            "/",
            "expired",
            "TLS",
            "example.test",
            0,
            None,
            NOW + i,
        );
    }
    let group = &stats.issues.groups[0];
    assert_eq!(group.count, 50);
    assert_eq!(group.occurrences.len(), MAX_OCCURRENCES_PER_GROUP);
    assert_eq!(group.last_seen, NOW + 49);
}

#[test]
fn percentiles_come_from_the_latest_samples() {
    let mut h = HandlerStats::new();
    assert_eq!(h.avg_ms(), 0);
    for ms in 1..=100u64 {
        h.record(ms);
    }
    assert_eq!(h.count, 100);
    assert_eq!(h.total_ms, 5050);
    assert_eq!(h.avg_ms(), 50);
    let p50 = h.percentile(50);
    let p95 = h.percentile(95);
    assert!((50..=51).contains(&p50), "{p50}");
    assert!((95..=96).contains(&p95), "{p95}");
    for ms in 0..1000u64 {
        h.record(ms);
    }
    assert_eq!(h.samples.len(), MAX_LATENCY_SAMPLES);
}

#[test]
fn counters_of_paths_are_bounded() {
    let mut c = PathCounter::new();
    for i in 0..(MAX_TRACKED_PATHS + 10) {
        c.record(&format!("/{i}"));
    }
    assert!(c.counts.len() <= MAX_TRACKED_PATHS);
}

#[test]
fn rates_look_back_a_minute() {
    let mut w = RateWindow::new();
    w.record(1000);
    w.record(1000);
    w.record(1030);
    assert_eq!(w.total(1030), 3);
    assert_eq!(w.total(1100), 0);
    assert_eq!(render_rate(60), "1.00");
    assert_eq!(render_rate(90), "1.50");
    assert_eq!(render_rate(0), "0.00");
}

#[test]
fn classes_of_statuses_have_names() {
    assert_eq!(status_class(101), "other");
    assert_eq!(status_class(204), "2xx");
    assert_eq!(status_class(304), "3xx");
    assert_eq!(status_class(404), "4xx");
    assert_eq!(status_class(503), "5xx");
    assert_eq!(HandlerType::StaticFile.label(), "static file");
    assert!(!IssueKind::ScriptFailure.label().is_empty());
}

#[test]
fn the_page_holds_no_script() {
    let evil = "<script>alert(1)</script>";
    let mut stats = Stats::new(evil, NOW);
    stats.record_totals(evil, evil, 404, 1, 2, NOW);
    let referer = Some(evil.to_string());
    stats.record_issue(IssueKind::ScriptFailure, evil, evil, evil, evil, 500, referer, NOW);
    let mut opts = fallback_defaults(&None, "/logs", "linux", "x86_64");
    opts.base_dir = evil.to_string();
    opts.listen = evil.to_string();
    let page = render_dashboard(&stats, &opts, None, NOW, 90061);
    assert!(!page.contains("<script"));
    assert!(page.contains("/server-info"));
    assert!(page.contains("&lt;script&gt;alert(1)&lt;/script&gt;"));
    assert!(!page.contains("No issues recorded"));
    let quiet = render_dashboard(&Stats::new("", NOW), &opts, None, NOW, 0);
    assert!(quiet.contains("No issues recorded"));
}

#[test]
fn totals_add_up() {
    let mut stats = Stats::new("", NOW);
    for i in 0..50u64 {
        let status = if i % 5 == 0 { 404 } else { 200 };
        stats.record_totals("GET", &format!("/{}", i % 7), status, i, 2 * i, NOW);
    }
    assert_eq!(stats.total_requests(), 50);
    assert_eq!((stats.bytes_sent, stats.bytes_received), (1225, 2450));
    assert_eq!(stats.by_status.iter().map(|(_, n)| n).sum::<u64>(), 50);
    assert_eq!(stats.by_class.get("4xx"), Some(&10));
    let paths: u64 = (0..stats.top_paths.counts.len()).map(|i| *stats.top_paths.counts.value_at(i)).sum();
    assert_eq!(paths, 50);
}

#[test]
fn levels_count_guards_in_any_order() {
    let mut stats = Stats::new("", NOW);
    let first = stats.in_flight_guard();
    let second = stats.in_flight_guard();
    let up = stats.upstream_guard();
    assert_eq!((stats.in_flight, stats.active_upstream), (2, 1));
    first.release(&mut stats);
    assert_eq!((stats.in_flight, stats.active_upstream), (1, 1));
    up.release(&mut stats);
    second.release(&mut stats);
    assert_eq!((stats.in_flight, stats.active_upstream), (0, 0));
}

#[test]
fn problems_have_one_group_each() {
    let mut stats = Stats::new("", NOW);
    for i in 0..(MAX_ISSUE_GROUPS as u64 + 5) {
        let path = format!("/{i}");
        stats.record_issue(IssueKind::BrokenStaticRef, &path, "x", "GET", "t", 404, None, NOW + i);
        stats.record_issue(IssueKind::BrokenStaticRef, &path, "x", "GET", "t", 404, None, NOW + i);
    }
    assert_eq!(stats.issues.groups.len(), MAX_ISSUE_GROUPS);
    assert!(stats.issues.groups.iter().all(|g| g.count == 2));
    assert!(stats.issues.groups.iter().all(|g| g.path != "/0"));
}
