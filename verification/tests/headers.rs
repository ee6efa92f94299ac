use cashttpd::configs::headers::{builtin_security_headers, ServerTokens};
use cashttpd::configs::resolve::Resolved;
use cashttpd::servers::headers::{apply, preflight_response, REQUEST_HEADERS, REQUEST_METHOD};
use cashttpd::servers::http::{Body, Request, Response};
use cashttpd::servers::startup::fallback_defaults;
use cashttpd::supports::version::VERSION;
use cashttpd::table::Table;

fn options(tls: bool, tokens: ServerTokens) -> Resolved {
    let mut opts = fallback_defaults(&None, "/tmp", "linux", "x86_64");
    opts.tls_enabled = tls;
    opts.security_headers = builtin_security_headers(tls, tokens, "linux", "x86_64");
    opts
}

fn request(method: &str, headers: &[(&str, &str)]) -> Request {
    let mut table = Table::new();
    for (k, v) in headers {
        table.insert(k, v.to_string());
    }
    Request {
        method: method.to_string(),
        path: "/".to_string(),
        version: "HTTP/1.1".to_string(),
        headers: table,
    }
}

fn response() -> Response {
    Response {
        status: 200,
        reason: "OK".to_string(),
        body: Body::Bytes(b"body".to_vec()),
        head_only: false,
        headers: Vec::new(),
    }
}

fn field<'a>(r: &'a Response, name: &str) -> Option<&'a str> {
    r.headers
        .iter()
        .find(|(k, _)| k.eq_ignore_ascii_case(name))
        .map(|(_, v)| v.as_str())
}

#[test]
fn defaults_are_present_on_a_plain_http_response() {
    let mut r = response();
    apply(&mut r, &request("GET", &[]), &options(false, ServerTokens::Full));
    assert_eq!(field(&r, "x-content-type-options"), Some("nosniff"));
    assert_eq!(field(&r, "x-frame-options"), Some("SAMEORIGIN"));
    assert_eq!(field(&r, "referrer-policy"), Some("no-referrer-when-downgrade"));
    assert!(field(&r, "server").is_some());
}

#[test]
fn csp_xss_and_cache_control_are_never_defaulted() {
    let mut r = response();
    apply(&mut r, &request("GET", &[]), &options(false, ServerTokens::Full));
    assert!(field(&r, "content-security-policy").is_none());
    assert!(field(&r, "x-xss-protection").is_none());
    assert!(field(&r, "cache-control").is_none());
    assert!(field(&r, "expires").is_none());
}

#[test]
fn hsts_is_added_only_when_tls_is_enabled() {
    let mut plain = response();
    apply(&mut plain, &request("GET", &[]), &options(false, ServerTokens::Full));
    assert!(field(&plain, "strict-transport-security").is_none());

    let mut secure = response();
    apply(&mut secure, &request("GET", &[]), &options(true, ServerTokens::Full));
    assert_eq!(
        field(&secure, "strict-transport-security"),
        Some("max-age=31536000; includeSubDomains")
    );
}

#[test]
fn a_header_the_response_already_set_is_never_overwritten() {
    let mut r = response();
    r.headers.push(("x-frame-options".to_string(), "DENY".to_string()));
    r.headers.push(("server".to_string(), "upstream/1.0".to_string()));
    apply(&mut r, &request("GET", &[]), &options(false, ServerTokens::Full));
    assert_eq!(field(&r, "x-frame-options"), Some("DENY"));
    assert_eq!(field(&r, "server"), Some("upstream/1.0"));
}

#[test]
fn security_headers_override_removes_a_default() {
    let mut opts = options(false, ServerTokens::Full);
    opts.security_headers.remove("Server");
    opts.security_headers.insert("X-Frame-Options", "DENY".to_string());
    let mut r = response();
    apply(&mut r, &request("GET", &[]), &opts);
    assert!(field(&r, "server").is_none());
    assert_eq!(field(&r, "x-frame-options"), Some("DENY"));
}

#[test]
fn cors_default_is_permissive_and_never_credentialed() {
    let mut r = response();
    apply(&mut r, &request("GET", &[]), &options(false, ServerTokens::Full));
    assert_eq!(field(&r, "access-control-allow-origin"), Some("*"));
    assert!(field(&r, "access-control-allow-credentials").is_none());
}

#[test]
fn cors_disabled_emits_no_cors_headers() {
    let mut opts = options(false, ServerTokens::Full);
    opts.cors = None;
    let mut r = response();
    apply(&mut r, &request("GET", &[]), &opts);
    assert!(field(&r, "access-control-allow-origin").is_none());
}

#[test]
fn preflight_echoes_the_requested_method_and_headers() {
    let opts = options(false, ServerTokens::Full);
    let req = request(
        "OPTIONS",
        &[(REQUEST_METHOD, "PUT"), (REQUEST_HEADERS, "content-type, x-token")],
    );
    let mut r = preflight_response(&req, &opts).expect("preflight is answered directly");
    assert_eq!(r.status, 204);
    apply(&mut r, &req, &opts);
    assert_eq!(field(&r, "access-control-allow-methods"), Some("PUT"));
    assert_eq!(field(&r, "access-control-allow-headers"), Some("content-type, x-token"));
}

#[test]
fn a_plain_options_request_is_not_treated_as_a_preflight() {
    let opts = options(false, ServerTokens::Full);
    assert!(preflight_response(&request("OPTIONS", &[]), &opts).is_none());
    assert!(preflight_response(&request("GET", &[(REQUEST_METHOD, "PUT")]), &opts).is_none());
}

#[test]
fn preflight_is_not_answered_when_cors_is_disabled() {
    let mut opts = options(false, ServerTokens::Full);
    opts.cors = None;
    let req = request("OPTIONS", &[(REQUEST_METHOD, "PUT")]);
    assert!(preflight_response(&req, &opts).is_none());
}

#[test]
fn server_tokens_levels_render_apaches_exact_verbosity_ladder() {
    let version = VERSION;
    let os = "linux";
    let arch = "x86_64";
    let mut parts = version.split('.');
    let major = parts.next().unwrap_or("0");
    let minor = parts.next().unwrap_or("0");

    assert_eq!(
        ServerTokens::Full.header_value(os, arch),
        format!("cashttpd/{version} ({os}; {arch})")
    );
    assert_eq!(
        ServerTokens::Os.header_value(os, arch),
        format!("cashttpd/{version} ({os})")
    );
    assert_eq!(
        ServerTokens::Minor.header_value(os, arch),
        format!("cashttpd/{major}.{minor}")
    );
    assert_eq!(ServerTokens::Major.header_value(os, arch), format!("cashttpd/{major}"));
    assert_eq!(ServerTokens::Min.header_value(os, arch), format!("cashttpd/{version}"));
    assert_eq!(ServerTokens::Prod.header_value(os, arch), "cashttpd");
}

#[test]
fn server_tokens_parse_is_case_insensitive_and_defaults_to_full() {
    assert_eq!(ServerTokens::parse("prod"), ServerTokens::Prod);
    assert_eq!(ServerTokens::parse("ProductOnly"), ServerTokens::Prod);
    assert_eq!(ServerTokens::parse("  MIN "), ServerTokens::Min);
    assert_eq!(ServerTokens::parse("os"), ServerTokens::Os);
    assert_eq!(ServerTokens::parse("nonsense"), ServerTokens::Full);
}

#[test]
fn resolved_server_header_follows_server_tokens() {
    let mut r = response();
    apply(&mut r, &request("GET", &[]), &options(false, ServerTokens::Prod));
    assert_eq!(field(&r, "server"), Some("cashttpd"));
}

#[test]
fn fields_that_cannot_be_sent_are_left_out() {
    let mut opts = options(false, ServerTokens::Prod);
    opts.security_headers.insert("X Bad", "1".to_string());
    opts.security_headers.insert("X-Line", "a\r\nb".to_string());
    opts.security_headers.insert("X-Good", "a\tb".to_string());
    let mut r = response();
    apply(&mut r, &request("GET", &[]), &opts);
    assert!(field(&r, "x bad").is_none());
    assert!(field(&r, "x-line").is_none());
    assert_eq!(field(&r, "x-good"), Some("a\tb"));
    assert!(r.headers.iter().any(|(k, _)| k == "x-good"));
}
