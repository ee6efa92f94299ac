use cashttpd::configs::resolve::{load, CliOverrides, Environment, Machine};
use cashttpd::configs::Layer;
use cashttpd::servers::handle::script_issue;
use cashttpd::servers::http::Request;
use cashttpd::servers::info::IssueKind;
use cashttpd::servers::passwords::{apr1_crypt, parse_basic_auth, verify_hash, verify_password};
use cashttpd::supports::signal::ShutdownState;
use cashttpd::table::Table;

#[test]
fn passwords_answer_their_own_hashes() {
    for (password, salt) in [("secret", "abcdefgh"), ("", "x"), ("p\u{e4}ss w\u{f6}rd", "")] {
        let hash = apr1_crypt(password, salt);
        assert!(verify_hash(&hash, password), "{hash}");
        assert!(!verify_hash(&hash, "other"));
        let file = format!("# users\nann:{hash}\n");
        assert!(verify_password(Some(&file), "ann", password));
        assert!(!verify_password(Some(&file), "bob", password));
        assert!(!verify_password(None, "ann", password));
    }
}

#[test]
fn credentials_are_read_as_they_were_sent() {
    let sent = base64::Engine::encode(&base64::engine::general_purpose::STANDARD, "ann:a:b:c");
    assert_eq!(
        parse_basic_auth(&format!("Basic {sent}")),
        Some(("ann".to_string(), "a:b:c".to_string()))
    );
}

#[test]
fn the_second_signal_is_final() {
    let mut state = ShutdownState::new();
    state.track_child_process(7);
    let first = state.deliver();
    assert_eq!((first.exit_now, first.terminate), (false, Some(7)));
    let second = state.deliver();
    assert_eq!((second.exit_now, second.terminate), (true, Some(7)));
}

#[test]
fn nothing_but_the_machine_itself_is_served_by_default() {
    for (v6_available, nanos) in [(true, 0), (false, 999_999_999)] {
        let machine = Machine {
            v6_available,
            nanos,
            log_dir: "/logs".to_string(),
            os: "linux".to_string(),
            arch: "x86_64".to_string(),
            base_dir: None,
            project_base_dir: None,
            global_base_dir: None,
            taken_ports: Vec::new(),
        };
        let r = load(
            &CliOverrides::default(),
            &Environment::default(),
            &Layer::default(),
            &Layer::default(),
            &machine,
            "/p.yaml",
        );
        assert_eq!(r.listen, if v6_available { "::1" } else { "127.0.0.1" });
        assert_eq!(r.port, if v6_available { 59000 } else { 59999 });
    }
}

#[test]
fn problems_of_scripts_name_their_cause() {
    let request = Request {
        method: "GET".to_string(),
        path: "/a%20b.py?q".to_string(),
        version: "HTTP/1.1".to_string(),
        headers: Table::new(),
    };
    let missing = script_issue(&request, "/srv/a b.py", "python3 is not installed", true);
    assert_eq!((missing.kind, missing.status), (IssueKind::MissingInterpreter, 503));
    assert_eq!((missing.path.as_str(), missing.target.as_str()), ("/a b.py", "/srv/a b.py"));
    let failed = script_issue(&request, "/srv/a b.py", "boom", false);
    assert_eq!((failed.kind, failed.status), (IssueKind::ScriptFailure, 500));
    assert_eq!(failed.cause, "boom");
}
