use cashttpd::configs::resolve::Resolved;
use cashttpd::configs::ProxyLayer;
use cashttpd::servers::http::{Body, Request};
use cashttpd::servers::proxy::{
    child_command, detect, find_profile, marker_files, resolve_proxy_target, Markers, ProxyTarget,
};
use cashttpd::servers::startup::fallback_defaults;
use cashttpd::servers::upstream::{
    bad_gateway, build_upstream_request, copy_relayable_headers, failure_detail, is_websocket,
    proxy_request,
    read_upstream_status_and_headers, relay_head, remote_ip, respond_starting, response_framing,
    starting_page, upstream_request_for, write_status_and_headers, write_upstream_request,
    BodyFraming, ChunkRelay, Event, Exchange, HeadFault, Need, Step, UpstreamHead, UpstreamRequest,
};
use cashttpd::table::Table;

fn markers(files: &[(&str, &str)]) -> Markers {
    let text = |name: &str| files.iter().find(|(f, _)| *f == name).map(|(_, t)| t.to_string());
    Markers {
        files: files.iter().map(|(f, _)| f.to_string()).collect(),
        package_json: text("package.json"),
        pyproject: text("pyproject.toml"),
        requirements: text("requirements.txt"),
    }
}

fn detected(files: &[(&str, &str)]) -> Option<&'static str> {
    detect(&markers(files)).map(|p| p.name)
}

fn opts() -> Resolved {
    fallback_defaults(&None, "/tmp", "linux", "x86_64")
}

fn request(method: &str, path: &str, headers: &[(&str, &str)]) -> Request {
    let mut table = Table::new();
    for (k, v) in headers {
        table.insert(k, v.to_string());
    }
    Request {
        method: method.to_string(),
        path: path.to_string(),
        version: "HTTP/1.1".to_string(),
        headers: table,
    }
}

fn field<'a>(r: &'a UpstreamRequest, name: &str) -> Option<&'a str> {
    r.headers.iter().find(|(k, _)| k == name).map(|(_, v)| v.as_str())
}

#[test]
fn detects_node_from_package_json_scripts() {
    assert_eq!(
        detected(&[("package.json", r#"{"scripts":{"dev":"next dev"}}"#)]),
        Some("node")
    );
}

#[test]
fn detects_vite_from_config_file() {
    assert_eq!(detected(&[("vite.config.ts", "export default {}")]), Some("vite"));
}

#[test]
fn detects_bun_from_lockfile() {
    assert_eq!(detected(&[("package.json", "{}"), ("bun.lockb", "")]), Some("bun"));
}

#[test]
fn detects_deno_from_deno_json() {
    assert_eq!(detected(&[("deno.json", "{}")]), Some("deno"));
}

#[test]
fn detects_rails_from_gemfile_and_config_ru() {
    assert_eq!(
        detected(&[
            ("Gemfile", "source 'https://rubygems.org'"),
            ("config.ru", "run Rails.application"),
        ]),
        Some("rails")
    );
}

#[test]
fn detects_django_from_manage_py() {
    assert_eq!(detected(&[("manage.py", "#!/usr/bin/env python")]), Some("django"));
}

#[test]
fn detects_fastapi_from_requirements_txt() {
    assert_eq!(detected(&[("requirements.txt", "fastapi\nuvicorn\n")]), Some("fastapi"));
}

#[test]
fn detects_flask_from_pyproject_toml() {
    assert_eq!(
        detected(&[("pyproject.toml", "[project]\ndependencies=[\"flask\"]")]),
        Some("flask")
    );
}

#[test]
fn detects_nothing_without_markers() {
    assert!(detect(&markers(&[])).is_none());
    assert_eq!(marker_files().len(), 13);
}

#[test]
fn resolve_returns_none_when_explicitly_disabled_despite_markers() {
    let layer = ProxyLayer { enabled: Some(false), ..Default::default() };
    assert!(resolve_proxy_target(&markers(&[("manage.py", "")]), &layer).is_none());
}

#[test]
fn resolve_returns_none_with_no_markers_and_no_overrides() {
    assert!(resolve_proxy_target(&markers(&[]), &ProxyLayer::default()).is_none());
}

#[test]
fn resolve_reuses_profile_defaults_from_explicit_type() {
    let layer = ProxyLayer { kind: Some("django".to_string()), ..Default::default() };
    let target = resolve_proxy_target(&markers(&[]), &layer).unwrap();
    assert_eq!(target.kind, "django");
    assert_eq!(target.upstream, "127.0.0.1:8000");
    assert_eq!(target.command, "python3 manage.py runserver 127.0.0.1:8000");
    assert_eq!(target.path_prefix, "/");
}

#[test]
fn resolve_command_override_keeps_profile_upstream() {
    let layer = ProxyLayer {
        kind: Some("node".to_string()),
        command: Some("yarn dev".to_string()),
        ..Default::default()
    };
    let target = resolve_proxy_target(&markers(&[]), &layer).unwrap();
    assert_eq!(target.command, "yarn dev");
    assert_eq!(target.upstream, "127.0.0.1:3000");
}

#[test]
fn resolve_fully_explicit_command_and_upstream_needs_no_type() {
    let layer = ProxyLayer {
        command: Some("./run-dev-server.sh".to_string()),
        upstream: Some("127.0.0.1:4000".to_string()),
        path_prefix: Some("/app".to_string()),
        ..Default::default()
    };
    let target = resolve_proxy_target(&markers(&[]), &layer).unwrap();
    assert_eq!(target.kind, "custom");
    assert_eq!(target.command, "./run-dev-server.sh");
    assert_eq!(target.upstream, "127.0.0.1:4000");
    assert_eq!(target.path_prefix, "/app");
}

#[test]
fn starting_page_contains_auto_refresh_and_escaped_request() {
    let page = starting_page(&request("GET", "/<app>", &[]));
    assert!(page.contains("http-equiv=\"refresh\""));
    assert!(page.contains("&lt;app&gt;"));
}

#[test]
fn proxy_starting_page_contains_auto_refresh_and_escaped_request() {
    let page = starting_page(&request("GET", "/<app>", &[]));
    assert!(page.contains("http-equiv=\"refresh\""));
    assert!(page.contains("&lt;app&gt;"));
    let r = respond_starting(&request("HEAD", "/<app>", &[]));
    assert_eq!(r.status, 503);
    assert!(r.head_only);
    assert!(r.headers.contains(&("Retry-After".to_string(), "1".to_string())));
}

#[test]
fn build_upstream_request_appends_forwarded_headers_and_keeps_host() {
    let req = request(
        "GET",
        "/api/things?x=1",
        &[
            ("host", "app.example.test"),
            ("x-forwarded-for", "10.0.0.1"),
            ("connection", "keep-alive"),
        ],
    );
    let built = build_upstream_request(&req, "192.0.2.5", &opts(), false).unwrap();
    assert_eq!(built.method, "GET");
    assert_eq!(built.target, "/api/things?x=1");
    assert_eq!(field(&built, "host"), Some("app.example.test"));
    assert_eq!(field(&built, "x-forwarded-for"), Some("10.0.0.1, 192.0.2.5"));
    assert_eq!(field(&built, "x-forwarded-proto"), Some("http"));
    assert_eq!(field(&built, "connection"), Some("close"));
}

#[test]
fn build_upstream_request_uses_upgrade_connection_for_websocket() {
    let req = request("GET", "/ws", &[("upgrade", "websocket"), ("connection", "Upgrade")]);
    assert!(is_websocket(&req));
    let built = build_upstream_request(&req, "192.0.2.5", &opts(), true).unwrap();
    assert_eq!(field(&built, "connection"), Some("Upgrade"));
    assert_eq!(field(&built, "upgrade"), Some("websocket"));
}

#[test]
fn build_upstream_request_drops_hop_by_hop_framing_headers() {
    let req = request(
        "POST",
        "/submit",
        &[
            ("transfer-encoding", "chunked"),
            ("content-length", "9999"),
            ("te", "trailers"),
            ("upgrade", "h2c"),
        ],
    );
    assert!(!is_websocket(&req));
    let built = build_upstream_request(&req, "192.0.2.5", &opts(), false).unwrap();
    assert!(field(&built, "transfer-encoding").is_none());
    assert!(field(&built, "te").is_none());
    assert!(field(&built, "upgrade").is_none());
    assert_eq!(field(&built, "content-length"), None);
}

#[test]
fn requests_that_cannot_be_sent_are_reported() {
    let bad_method = request("GE T", "/", &[]);
    assert_eq!(
        build_upstream_request(&bad_method, "ip", &opts(), false).err().as_deref(),
        Some("invalid HTTP method")
    );
    let bad_path = request("GET", "/a b", &[]);
    assert!(build_upstream_request(&bad_path, "ip", &opts(), false).is_err());
    let fragment = request("GET", "/a#b", &[]);
    assert_eq!(build_upstream_request(&fragment, "ip", &opts(), false).unwrap().target, "/a");
    let given = upstream_request_for(&bad_path, Err("no".to_string()), "ip", false, false);
    assert_eq!(given.err().as_deref(), Some("no"));
    let odd = request("GET", "/", &[("bad name", "x"), ("good", "a\nb"), ("fine", "1")]);
    let built = upstream_request_for(&odd, Ok("/".to_string()), "::1", true, false).unwrap();
    assert_eq!(field(&built, "fine"), Some("1"));
    assert!(field(&built, "good").is_none());
    assert_eq!(field(&built, "x-forwarded-proto"), Some("https"));
    assert_eq!(built.headers.len(), 4);
}

#[test]
fn copy_relayable_headers_strips_hop_by_hop_except_on_upgrade() {
    let from: Vec<(String, String)> = [
        ("content-type", "text/html"),
        ("transfer-encoding", "chunked"),
        ("connection", "Upgrade"),
        ("upgrade", "websocket"),
    ]
    .iter()
    .map(|(k, v)| (k.to_string(), v.to_string()))
    .collect();
    let get = |h: &Vec<(String, String)>, n: &str| {
        h.iter().find(|(k, _)| k == n).map(|(_, v)| v.clone())
    };

    let plain = copy_relayable_headers(&from, false);
    assert_eq!(get(&plain, "content-type").as_deref(), Some("text/html"));
    assert!(get(&plain, "transfer-encoding").is_none());
    assert!(get(&plain, "connection").is_none());
    assert!(get(&plain, "upgrade").is_none());

    let switching = copy_relayable_headers(&from, true);
    assert_eq!(get(&switching, "connection").as_deref(), Some("Upgrade"));
    assert_eq!(get(&switching, "upgrade").as_deref(), Some("websocket"));
    assert!(get(&switching, "transfer-encoding").is_none());

    assert!(relay_head(true, 101, &from).0);
    assert!(!relay_head(true, 200, &from).0);
    assert!(!relay_head(false, 101, &from).0);
}

#[test]
fn write_upstream_request_appends_forwarded_headers_and_keeps_host() {
    let req = request(
        "GET",
        "/api/things?x=1",
        &[
            ("host", "app.example.test"),
            ("x-forwarded-for", "10.0.0.1"),
            ("connection", "keep-alive"),
        ],
    );
    let text = write_upstream_request(&req, "192.0.2.5", &opts(), false);
    assert!(text.starts_with("GET /api/things?x=1 HTTP/1.1\r\n"));
    assert!(text.contains("host: app.example.test\r\n"));
    assert!(text.contains("X-Forwarded-For: 10.0.0.1, 192.0.2.5\r\n"));
    assert!(text.contains("X-Forwarded-Proto: http\r\n"));
    assert!(text.contains("Connection: close\r\n"));
    assert!(!text.contains("connection: keep-alive"));
}

#[test]
fn write_upstream_request_uses_upgrade_connection_for_websocket() {
    let req = request("GET", "/ws", &[("upgrade", "websocket"), ("connection", "Upgrade")]);
    let text = write_upstream_request(&req, "192.0.2.5", &opts(), true);
    assert!(text.contains("Connection: Upgrade\r\n"));
}

#[test]
fn heads_of_responses_are_read_and_written() {
    let lines: Vec<String> = ["HTTP/1.1 404 Not Found\r\n", "A: 1\r\n", "nonsense\r\n", "B : 2 \r\n", "\r\n", "C: 3\r\n"]
        .iter()
        .map(|s| s.to_string())
        .collect();
    let head = read_upstream_status_and_headers(&lines).unwrap();
    assert_eq!(head.status, 404);
    assert_eq!(head.reason, "Not Found");
    assert_eq!(
        head.headers,
        vec![("A".to_string(), "1".to_string()), ("B".to_string(), "2".to_string())]
    );
    assert_eq!(
        write_status_and_headers(&head),
        "HTTP/1.1 404 Not Found\r\nA: 1\r\nB: 2\r\n\r\n"
    );
    assert_eq!(read_upstream_status_and_headers(&vec![]).err(), Some(HeadFault::Empty));
    let bad = vec!["HTTP/1.1\r\n".to_string()];
    assert_eq!(read_upstream_status_and_headers(&bad).err(), Some(HeadFault::Malformed));
    assert_eq!(HeadFault::Malformed.message(), "malformed upstream status line");
    let short = read_upstream_status_and_headers(&vec!["HTTP/1.1 200\r\n".to_string()]).unwrap();
    assert_eq!(short.reason, "");
    let _: &UpstreamHead = &short;
}

#[test]
fn bodies_of_responses_are_framed() {
    let h = |list: &[(&str, &str)]| -> Vec<(String, String)> {
        list.iter().map(|(k, v)| (k.to_string(), v.to_string())).collect()
    };
    assert_eq!(response_framing(&h(&[]), true, 200), BodyFraming::Nothing);
    assert_eq!(response_framing(&h(&[]), false, 304), BodyFraming::Nothing);
    assert_eq!(response_framing(&h(&[]), false, 101), BodyFraming::Nothing);
    assert_eq!(
        response_framing(&h(&[("Content-Length", "5"), ("Transfer-Encoding", "Chunked")]), false, 200),
        BodyFraming::Chunked
    );
    assert_eq!(
        response_framing(&h(&[("content-length", " 7 ")]), false, 200),
        BodyFraming::Length(7)
    );
    assert_eq!(
        response_framing(&h(&[("content-length", "x")]), false, 200),
        BodyFraming::UntilClose
    );
}

#[test]
fn chunks_are_relayed_as_they_come() {
    let mut c = ChunkRelay::new();
    assert_eq!(c.need, Need::Size);
    c.line(Some("1A;ext=1\r\n"));
    assert_eq!(c.need, Need::Chunk(26));
    c.chunk();
    assert_eq!(c.total, 26);
    c.line(Some("0\r\n"));
    assert_eq!(c.need, Need::Trailer);
    c.line(Some("X: 1\r\n"));
    assert_eq!(c.need, Need::Trailer);
    c.line(Some("\r\n"));
    assert_eq!(c.need, Need::Nothing);
    c.line(Some("5\r\n"));
    assert_eq!(c.need, Need::Nothing);
    let mut odd = ChunkRelay::new();
    odd.line(Some("zz\r\n"));
    assert_eq!(odd.need, Need::Trailer);
    let mut cut = ChunkRelay::new();
    cut.line(None);
    assert_eq!(cut.need, Need::Nothing);
}

#[test]
fn failures_of_the_exchange_have_words() {
    let u = "127.0.0.1:3000";
    assert_eq!(failure_detail(Step::Build, u, "e"), "could not build upstream request: e");
    assert_eq!(
        failure_detail(Step::Connect, u, "e"),
        "failed to connect to upstream 127.0.0.1:3000: e"
    );
    assert_eq!(failure_detail(Step::Handshake, u, "e"), "upstream HTTP/1.1 handshake failed: e");
    assert_eq!(failure_detail(Step::Write, u, "e"), "failed to write request to upstream: e");
    assert_eq!(failure_detail(Step::Read, u, "e"), "upstream produced no usable response: e");
    let mut o = opts();
    o.debug = true;
    let r = bad_gateway(&request("GET", "/", &[]), &o, "the detail");
    assert_eq!((r.status, r.reason.as_str()), (502, "Bad Gateway"));
    assert!(matches!(&r.body, Body::Bytes(b) if String::from_utf8_lossy(b).contains("the detail")));
    assert_eq!(remote_ip("10.0.0.1:80"), "10.0.0.1");
    assert_eq!(remote_ip("[::1]:80"), "[::1]");
    assert_eq!(remote_ip("nobody"), "nobody");
}

#[test]
fn commands_are_split_into_words() {
    let target = |command: &str| ProxyTarget {
        kind: String::new(),
        command: command.to_string(),
        upstream: String::new(),
        path_prefix: String::new(),
    };
    assert_eq!(
        child_command(&target(" npm  run dev ")),
        Some(("npm".to_string(), vec!["run".to_string(), "dev".to_string()]))
    );
    assert_eq!(child_command(&target("  ")), None);
    assert_eq!(find_profile("VITE").map(|p| p.upstream), Some("127.0.0.1:5173"));
    assert!(find_profile("cobol").is_none());
}

#[test]
fn exchanges_go_step_by_step() {
    let req = request("GET", "/", &[]);
    let next = |event: Event| proxy_request(&req, &opts(), "127.0.0.1:3000", event);
    assert!(matches!(next(Event::Ready(true)), Exchange::Connect));
    assert!(matches!(next(Event::Connected), Exchange::Send));
    assert!(matches!(next(Event::Sent), Exchange::ReadHead));
    assert!(matches!(next(Event::Ready(false)), Exchange::Answer(r) if r.status == 503));
    let failed = Event::Failed(Step::Connect, "refused".to_string());
    assert!(matches!(next(failed), Exchange::Answer(r) if r.status == 502));
    assert!(matches!(next(Event::Head(vec![])), Exchange::Answer(r) if r.status == 502));
    let head = |status: &str| {
        vec![format!("HTTP/1.1 {status}\r\n"), "Content-Length: 3\r\n".to_string(), "\r\n".to_string()]
    };
    match next(Event::Head(head("200 OK"))) {
        Exchange::Stream(h, f) => assert_eq!((h.status, f), (200, BodyFraming::Length(3))),
        _ => panic!("a body"),
    }
    let socket = request("GET", "/ws", &[("upgrade", "websocket"), ("connection", "Upgrade")]);
    let switched = proxy_request(&socket, &opts(), "u", Event::Head(head("101 Switching Protocols")));
    assert!(matches!(switched, Exchange::Upgrade(h) if h.status == 101));
}
