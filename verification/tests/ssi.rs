use std::collections::BTreeMap;

use cashttpd::servers::http::{Body, Request};
use cashttpd::servers::ssi::{
    applies, base_vars, render_document, respond_rendered, Included, Library, Renderer,
    ERROR_MARKER, MAX_INCLUDE_DEPTH,
};
use cashttpd::servers::ssi_expr::eval_expr;
use cashttpd::servers::ssi_text::{attr, entity_encode, expand, parse_attributes, url_encode};
use cashttpd::servers::startup::fallback_defaults;
use cashttpd::table::Table;

const ROOT: &str = "/srv/site";

type Files = BTreeMap<String, String>;

fn files(list: &[(&str, &str)]) -> Files {
    let mut all: Files = list.iter().map(|(p, t)| (p.to_string(), t.to_string())).collect();
    all.insert("/etc/passwd".to_string(), "root".to_string());
    all
}

fn canonical(path: &str) -> String {
    let mut parts: Vec<&str> = Vec::new();
    for p in path.split('/') {
        match p {
            "" | "." => {}
            ".." => {
                parts.pop();
            }
            p => parts.push(p),
        }
    }
    format!("/{}", parts.join("/"))
}

fn library() -> Library {
    Library { root: ROOT.to_string(), real_root: Some(ROOT.to_string()), files: Table::new() }
}

fn look_up(library: &mut Library, all: &Files, path: &str) {
    let real = canonical(path);
    let found = all.get(&real).map(|t| Included {
        path: real.clone(),
        is_file: true,
        bytes: Some(t.as_bytes().to_vec()),
    });
    library.files.insert(path, found);
}

fn vars() -> Table<String> {
    let mut vars = Table::new();
    vars.insert("DOCUMENT_NAME", "page.shtml".to_string());
    vars.insert("QUERY_STRING", "a=1".to_string());
    vars.insert("SERVER_NAME", "localhost".to_string());
    vars
}

fn render_with(vars: Table<String>, all: &Files, source: &str) -> String {
    let mut library = library();
    for _ in 0..100 {
        let mut page = Renderer::new(vars.copy());
        match page.render_source(&library, source, ROOT, 0) {
            Ok(()) => return page.out,
            Err(path) => look_up(&mut library, all, &path),
        }
    }
    panic!("look-ups without end");
}

fn render(source: &str) -> String {
    render_with(vars(), &files(&[]), source)
}

#[test]
fn echo_renders_a_variable_and_html_escapes_it_by_default() {
    let mut v = vars();
    v.insert("EVIL", "<script>&\"".to_string());
    let out = render_with(
        v,
        &files(&[]),
        "name=<!--#echo var=\"DOCUMENT_NAME\" -->;evil=<!--#echo var=\"EVIL\" -->",
    );
    assert_eq!(out, "name=page.shtml;evil=&lt;script&gt;&amp;&quot;");
}

#[test]
fn echo_of_an_unset_variable_uses_apaches_placeholder() {
    assert_eq!(render("<!--#echo var=\"NOPE\" -->"), "(none)");
}

#[test]
fn set_defines_a_variable_visible_to_later_directives() {
    assert_eq!(
        render(
            "<!--#set var=\"greeting\" value=\"hi $SERVER_NAME\" --><!--#echo var=\"greeting\" -->"
        ),
        "hi localhost"
    );
}

#[test]
fn conditionals_select_exactly_one_branch() {
    let source = "<!--#if expr=\"$SERVER_NAME = 'localhost'\" -->A<!--#elif expr=\"1\" -->B\
                  <!--#else -->C<!--#endif -->";
    assert_eq!(render(source), "A");

    let source =
        "<!--#if expr=\"$SERVER_NAME = 'other'\" -->A<!--#elif expr=\"'$QUERY_STRING'\" -->B\
                  <!--#else -->C<!--#endif -->";
    assert_eq!(render(source), "B");

    let source = "<!--#if expr=\"$NOPE\" -->A<!--#elif expr=\"$ALSO_NOPE\" -->B\
                  <!--#else -->C<!--#endif -->";
    assert_eq!(render(source), "C");
}

#[test]
fn a_suppressed_branch_emits_neither_text_nor_directive_output() {
    let source = "<!--#if expr=\"$NOPE\" -->text<!--#echo var=\"SERVER_NAME\" -->\
                  <!--#include virtual=\"/missing.html\" --><!--#endif -->done";
    assert_eq!(render(source), "done");
}

#[test]
fn nested_conditionals_stay_balanced() {
    let source = "<!--#if expr=\"1\" -->outer\
                  <!--#if expr=\"$NOPE\" -->inner<!--#else -->alt<!--#endif -->\
                  <!--#endif -->";
    assert_eq!(render(source), "outeralt");
}

#[test]
fn include_virtual_and_file_both_resolve_and_are_processed_recursively() {
    let all = files(&[
        ("/srv/site/parts/header.shtml", "H:<!--#echo var=\"SERVER_NAME\" -->"),
        ("/srv/site/parts/footer.html", "F"),
    ]);
    let out = render_with(
        vars(),
        &all,
        "<!--#include virtual=\"/parts/header.shtml\" -->|<!--#include file=\"parts/footer.html\" -->",
    );
    assert_eq!(out, "H:localhost|F");
}

#[test]
fn a_missing_include_renders_the_error_marker_without_stopping_the_page() {
    let out = render("before<!--#include virtual=\"/nope.html\" -->after");
    assert_eq!(out, format!("before{ERROR_MARKER}after"));
}

#[test]
fn an_include_escaping_the_document_root_is_refused() {
    let all = files(&[("/srv/site/inside.html", "ok")]);
    for source in [
        "<!--#include file=\"../../etc/passwd\" -->",
        "<!--#include virtual=\"/../../etc/passwd\" -->",
        "<!--#include file=\"/etc/passwd\" -->",
    ] {
        assert_eq!(render_with(vars(), &all, source), ERROR_MARKER, "source: {source}");
    }
}

#[test]
fn an_include_cycle_terminates_with_an_error_marker() {
    let all = files(&[
        ("/srv/site/a.shtml", "a<!--#include virtual=\"/b.shtml\" -->"),
        ("/srv/site/b.shtml", "b<!--#include virtual=\"/a.shtml\" -->"),
    ]);
    let out = render_with(vars(), &all, "<!--#include virtual=\"/a.shtml\" -->");
    assert!(out.ends_with(ERROR_MARKER), "output: {out}");
    assert!(out.matches('a').count() <= MAX_INCLUDE_DEPTH);
}

#[test]
fn exec_is_never_executed_and_reports_as_an_unrecognized_directive() {
    let source = "<!--#exec cmd=\"touch /tmp/pwned\" --><!--#exec cgi=\"/cgi-bin/x\" -->";
    assert_eq!(render(source), format!("{ERROR_MARKER}{ERROR_MARKER}"));
}

#[test]
fn a_malformed_directive_marks_the_spot_and_keeps_the_status_quo() {
    assert_eq!(render("<!--#echo -->"), ERROR_MARKER);
    assert_eq!(render("<!--#set var=\"x\" -->"), ERROR_MARKER);
    assert_eq!(render("<!--#endif -->"), ERROR_MARKER);
    assert_eq!(render("x<!--#echo var=\"A\""), format!("x{ERROR_MARKER}"));
    assert_eq!(render("<!--#if expr=\"'a' = = 'b'\" -->y<!--#endif -->"), ERROR_MARKER);
}

#[test]
fn an_unterminated_conditional_is_reported_at_end_of_document() {
    let body = Some(b"<!--#if expr=\"1\" -->body".to_vec());
    let out = render_document(&library(), "/srv/site/open.shtml", &body, vars());
    assert_eq!(out, Ok(format!("body{ERROR_MARKER}")));
    let missing = render_document(&library(), "/srv/site/open.shtml", &None, vars());
    assert_eq!(missing, Ok(ERROR_MARKER.to_string()));
}

#[test]
fn expression_grammar_covers_apaches_operator_set() {
    assert_eq!(eval_expr("\"a\" = \"a\""), Some(true));
    assert_eq!(eval_expr("\"a\" == \"a\""), Some(true));
    assert_eq!(eval_expr("\"a\" != \"b\""), Some(true));
    assert_eq!(eval_expr("\"a\" < \"b\""), Some(true));
    assert_eq!(eval_expr("\"b\" <= \"b\""), Some(true));
    assert_eq!(eval_expr("\"b\" > \"a\""), Some(true));
    assert_eq!(eval_expr("\"a\" >= \"b\""), Some(false));
    assert_eq!(eval_expr("!\"\""), Some(true));
    assert_eq!(eval_expr("\"a\" && \"\""), Some(false));
    assert_eq!(eval_expr("\"a\" || \"\""), Some(true));
    assert_eq!(eval_expr("(\"\" || \"a\") && !\"\""), Some(true));
    assert_eq!(eval_expr("\"index.shtml\" = /\\.shtml$/"), Some(true));
    assert_eq!(eval_expr("\"index.html\" = /\\.shtml$/"), Some(false));
    assert_eq!(eval_expr("\"index.html\" != /\\.shtml$/"), Some(true));
    assert_eq!(eval_expr("bare"), Some(true));
    assert_eq!(eval_expr(""), Some(false));
    assert_eq!(eval_expr("\"a\" = "), Some(false));
    assert_eq!(eval_expr("\"\" = "), Some(true));
    assert_eq!(eval_expr("(\"a\""), None);
    assert_eq!(eval_expr("\"a\" < /re/"), None);
}

#[test]
fn attribute_parsing_handles_quotes_escapes_and_unquoted_values() {
    let attrs = parse_attributes(" VAR=\"one two\" other='three' bare=four ");
    assert_eq!(attr(&attrs, "var").as_deref(), Some("one two"));
    assert_eq!(attr(&attrs, "other").as_deref(), Some("three"));
    assert_eq!(attr(&attrs, "bare").as_deref(), Some("four"));

    let attrs = parse_attributes(r#"value="a \"quoted\" b""#);
    assert_eq!(attr(&attrs, "value").as_deref(), Some(r#"a "quoted" b"#));
}

#[test]
fn variable_expansion_supports_braces_and_backslash_escapes() {
    let v = vars();
    assert_eq!(expand("$SERVER_NAME/x", &v), "localhost/x");
    assert_eq!(expand("${SERVER_NAME}x", &v), "localhostx");
    assert_eq!(expand("\\$SERVER_NAME", &v), "$SERVER_NAME");
    assert_eq!(expand("$NOPE!", &v), "!");
    assert_eq!(expand("cost: $ 5", &v), "cost: $ 5");
}

#[test]
fn url_encoding_is_available_for_echo() {
    assert_eq!(url_encode("a b/c?d=é"), "a%20b%2Fc%3Fd%3D%C3%A9");
    assert_eq!(entity_encode("<&>\""), "&lt;&amp;&gt;&quot;");
}

#[test]
fn applies_matches_configured_extensions_case_insensitively() {
    let mut opts = fallback_defaults(&None, "/tmp", "linux", "x86_64");
    assert!(applies("/srv/index.shtml", &opts.ssi_extensions));
    assert!(applies("/srv/INDEX.SHTML", &opts.ssi_extensions));
    assert!(!applies("/srv/index.html", &opts.ssi_extensions));
    opts.ssi_extensions = vec![".html".to_string()];
    assert!(applies("/srv/index.html", &opts.ssi_extensions));
    opts.ssi_extensions.clear();
    assert!(!applies("/srv/index.shtml", &opts.ssi_extensions));
}

#[test]
fn pages_know_where_they_come_from() {
    let request = Request {
        method: "GET".to_string(),
        path: "/page.shtml?a=1".to_string(),
        version: "HTTP/1.1".to_string(),
        headers: Table::new(),
    };
    let opts = fallback_defaults(&None, "/tmp", "linux", "x86_64");
    let v = base_vars(
        "/srv/site/page.shtml",
        ROOT,
        &request,
        &opts,
        "10.0.0.9:5000",
        1_704_067_200,
        1_704_067_200,
    );
    assert_eq!(v.get("DOCUMENT_NAME").map(String::as_str), Some("page.shtml"));
    assert_eq!(v.get("QUERY_STRING").map(String::as_str), Some("a=1"));
    let r = respond_rendered("text", false);
    assert_eq!(r.status, 200);
    assert!(matches!(r.body, Body::Bytes(b) if b == b"text"));
}
