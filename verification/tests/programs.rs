use cashttpd::configs::resolve::{validate, FileText};
use cashttpd::servers::http::{Body, Response};
use cashttpd::uis::{config_report, scan_args, Flags, Invocation};

fn written(response: &Response) -> String {
    let body = match &response.body {
        Body::Bytes(bytes) => bytes.clone(),
        _ => panic!("bytes"),
    };
    let mut text = response.head(body.len() as u64, false);
    if !response.head_only {
        text.push_str(&String::from_utf8_lossy(&body));
    }
    text
}

fn response(status: u16, reason: &str, body: &[u8], head_only: bool) -> Response {
    Response {
        status,
        reason: reason.to_string(),
        body: Body::Bytes(body.to_vec()),
        head_only,
        headers: Vec::new(),
    }
}

#[test]
fn write_response_full_body_includes_headers_and_content() {
    let text = written(&response(200, "OK", b"hello", false));
    assert!(text.starts_with("HTTP/1.1 200 OK\r\n"));
    assert!(text.contains("Content-Length: 5\r\n"));
    assert!(text.contains("Connection: close\r\n"));
    assert!(text.ends_with("hello"));
}

#[test]
fn write_response_head_only_omits_body() {
    let text = written(&response(404, "Not Found", b"Not Found", true));
    assert!(text.starts_with("HTTP/1.1 404 Not Found\r\n"));
    assert!(text.ends_with("\r\n\r\n"));
}

#[test]
fn config_test_flag_reports_success_when_no_config_files_exist() {
    for flag in ["--config-test", "-t"] {
        let args = vec!["cashttpd".to_string(), flag.to_string()];
        assert_eq!(scan_args(&args), Invocation::ConfigTest);
    }
    let none = FileText::Missing;
    let result = validate("/none/config.yaml", &none, "/none/projects/p.yaml", &none);
    assert_eq!(config_report(&result).1, 0);
}

#[test]
fn color_flag_is_also_accepted_on_the_serve_subcommand() {
    let flags = Flags {
        version: false,
        config_test: false,
        serve: Some(false),
        color: Some("auto".to_string()),
        serve_color: Some("no".to_string()),
    };
    assert_eq!(
        flags.forced_color(),
        Some(false),
        "an explicit serve-level --color must outrank the top-level default"
    );
}
