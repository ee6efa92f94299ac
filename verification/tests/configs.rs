use cashttpd::configs::headers::{
    builtin_cors_headers, builtin_security_headers, merge_header_overrides, resolve_cors,
    ServerTokens,
};
use cashttpd::configs::resolve::{
    autogenerated_yaml, builtin_script_handlers, builtin_ssi_extensions, config_paths,
    derived_name, first_global_file, first_project_file, layer_ssi, listen_address, load,
    pick_bool_env, random_port, read_layer, read_layers, requested_base_dir, set_port, tested_paths,
    unused_port, validate, CliOverrides, Environment, FileText, Machine, GLOBAL_HEADER,
};
use cashttpd::configs::{CorsLayer, Layer};
use cashttpd::table::Table;

fn machine() -> Machine {
    Machine {
        v6_available: true,
        nanos: 123_456_789,
        log_dir: "/var/log/cashttpd".to_string(),
        os: "linux".to_string(),
        arch: "x86_64".to_string(),
        base_dir: Some("/srv/site".to_string()),
        project_base_dir: None,
        global_base_dir: None,
        taken_ports: Vec::new(),
    }
}

fn layer(text: &str) -> Layer {
    read_layer("/etc/test.yaml", &file(text)).unwrap_or_else(|e| panic!("{e}"))
}

fn file(text: &str) -> FileText {
    FileText::Text(text.to_string())
}

#[test]
fn validate_reports_success_when_no_config_files_exist() {
    let none = FileText::Missing;
    assert_eq!(validate("/a/global.yaml", &none, "/a/project.yaml", &none), Ok(()));
}

#[test]
fn validate_reports_error_for_malformed_yaml() {
    let bad = file("not: [valid: yaml");
    let none = FileText::Missing;
    assert!(validate("/a/global.yaml", &none, "/a/bad.yaml", &bad).is_err());
    assert!(validate("/a/bad.yaml", &bad, "/a/project.yaml", &none).is_err());
}

#[test]
fn tests_of_the_configuration_accept_what_loads() {
    let texts = [
        FileText::Missing,
        file(""),
        file(" \n"),
        file("port: 1\n"),
        file("port: [1]\n"),
        file("- a\n- b\n"),
        file("just words"),
        file("a: [\n"),
        FileText::Unreadable("stream did not contain valid UTF-8".to_string()),
    ];
    for global in &texts {
        for project in &texts {
            let tested = validate("/g.yaml", global, "/p.yaml", project);
            let loaded = read_layers("/g.yaml", global, "/p.yaml", project);
            assert_eq!(tested, loaded.map(|_| ()));
        }
    }
    let unreadable = FileText::Unreadable("no".to_string());
    assert_eq!(
        validate("/g.yaml", &file(""), "/p.yaml", &unreadable),
        Err("no".to_string())
    );
}

#[test]
fn the_global_file_names_a_directory_where_nothing_else_does() {
    let global = layer("base_dir: /srv/global\n");
    let project = layer("base_dir: /srv/project\n");
    let env = Environment::default();
    let none = CliOverrides::default();
    let m = Machine { global_base_dir: Some("/real/global".to_string()), ..machine() };
    assert_eq!(load(&none, &env, &global, &Layer::default(), &m, "").base_dir, "/real/global");
    assert_eq!(
        load(&none, &env, &global, &Layer::default(), &machine(), "").base_dir,
        "/srv/global"
    );
    assert_eq!(load(&none, &env, &global, &project, &m, "").base_dir, "/srv/project");
    let cli = CliOverrides { base_dir: Some("/srv/site".to_string()), ..Default::default() };
    assert_eq!(load(&cli, &env, &global, &project, &m, "").base_dir, "/srv/site");
    let set = Environment { base_dir: Some("/srv/site".to_string()), ..Default::default() };
    assert_eq!(load(&none, &set, &global, &project, &m, "").base_dir, "/srv/site");
}

#[test]
fn default_ports_are_unused_ones() {
    assert_eq!(unused_port(5, &vec![]), Some(59005));
    assert_eq!(unused_port(5, &vec![59005, 59006]), Some(59007));
    assert_eq!(unused_port(999, &vec![59999]), Some(59000));
    assert_eq!(unused_port(7, &(59000..=59999).collect()), None);
    let m = Machine { nanos: 5, taken_ports: vec![59006, 59005], ..machine() };
    let env = Environment::default();
    let (none, silent) = (CliOverrides::default(), Layer::default());
    assert_eq!(load(&none, &env, &silent, &silent, &m, "").port, 59007);
    assert_eq!(load(&none, &env, &silent, &layer("port: 59005\n"), &m, "").port, 59005);
    assert_eq!(set_port(&none, &env, &silent, &silent), None);
    assert_eq!(set_port(&none, &env, &layer("port: 80\n"), &silent), Some(80));
    assert_eq!(listen_address(&none, &env, &silent, &silent, false), "127.0.0.1");
    assert_eq!(listen_address(&none, &env, &layer("listen: 10.0.0.1\n"), &silent, true), "10.0.0.1");
}

#[test]
fn settings_can_be_copied() {
    let project = layer("port: 1\nproxy:\n  type: vite\ncors: false\nssi_extensions: [.x]\n");
    let (cli, env) = (CliOverrides::default(), Environment::default());
    let r = load(&cli, &env, &Layer::default(), &project, &machine(), "/p.yaml");
    let c = r.copy();
    assert_eq!((c.port, c.listen, c.base_dir), (r.port, r.listen, r.base_dir));
    assert_eq!((c.ssi_extensions, c.proxy.kind), (r.ssi_extensions, r.proxy.kind));
    assert_eq!(c.cors.is_none(), r.cors.is_none());
    assert_eq!(c.script_handlers.len(), r.script_handlers.len());
    assert_eq!(c.project_config_path, "/p.yaml");
}

#[test]
fn overrides_apply_once() {
    let mut overrides = Table::<Option<String>>::new();
    overrides.insert("X-Frame-Options", None);
    overrides.insert("X-New", Some("1".to_string()));
    let mut once = builtin_security_headers(false, ServerTokens::Prod, "linux", "x86_64");
    let n = once.len();
    merge_header_overrides(&mut once, &overrides);
    let first: Vec<(String, String)> = (0..once.len())
        .map(|i| (once.key_at(i).clone(), once.value_at(i).clone()))
        .collect();
    merge_header_overrides(&mut once, &overrides);
    let second: Vec<(String, String)> = (0..once.len())
        .map(|i| (once.key_at(i).clone(), once.value_at(i).clone()))
        .collect();
    assert_eq!(first, second);
    assert_eq!(second.len(), n);
    assert_eq!(once.get("X-New").map(String::as_str), Some("1"));
    assert!(once.get("X-Frame-Options").is_none());
}

#[test]
fn derived_name_replaces_separators_with_underscores() {
    let name = derived_name("/tmp/cashttpd-cfg-test/derived", &None);
    assert!(!name.contains('/'));
    assert!(!name.is_empty());
    assert_eq!(name, "_tmp_cashttpd-cfg-test_derived");
    assert_eq!(derived_name("x", &Some("/srv/site".to_string())), "_srv_site");
    assert_eq!(derived_name("/no/such/dir", &None), "_no_such_dir");
    assert_eq!(derived_name("/", &None), "_");
    assert_eq!(derived_name("", &None), "root");
}

#[test]
fn load_autogenerates_project_config_with_resolved_settings() {
    let overrides = CliOverrides {
        base_dir: Some("/srv/site".to_string()),
        listen: Some("127.0.0.1".to_string()),
        port: Some(12345),
        ..Default::default()
    };
    let env = Environment::default();
    let resolved = load(&overrides, &env, &Layer::default(), &Layer::default(), &machine(), "/c/p.yaml");
    assert_eq!(resolved.listen, "127.0.0.1");
    assert_eq!(resolved.port, 12345);
    assert_eq!(resolved.project_config_path, "/c/p.yaml");

    let written = autogenerated_yaml(&resolved);
    let project = layer(&written);
    assert_eq!(project.port, Some(12345));
    let reloaded = load(&overrides, &env, &Layer::default(), &project, &machine(), "/c/p.yaml");
    assert_eq!(reloaded.port, 12345);
    assert_eq!(reloaded.listen, "127.0.0.1");
}

#[test]
fn written_settings_read_back() {
    let env = Environment::default();
    let silent = Layer::default();
    for text in [
        "", " ", " x ", "true", "No", "~", "null", "007", "0x1F", "1e3", ".inf", "-5", "- x", "a: b # c",
        "'", "\"", "it's \"so\"", "!x", "&a", "*a", "@", "%", "`", "|", ">", "?", ": ", "#", "{}", "[",
        "---", "...", "<<", "=", "C:\\dir", "/srv/site", "::1", "2024-01-01", "a\\nb", "\n", "\n\n",
        "a\n", "a\n\n", "\na", " a\n b", "a \nb", "a\n\tb", "a\r\nb", "a\rb", "\t", "\0", "\u{7f}",
        "\u{85}", "a\u{2028}b", "\u{2029}", "\u{feff}", "\u{fffe}", "\u{e9}", "\u{1f980}\n\u{1f980}",
    ] {
        let cli = CliOverrides {
            listen: Some(text.to_string()),
            log_dir: Some(text.to_string()),
            fqdn: Some(text.to_string()),
            port: Some(8080),
            debug: Some(true),
            ..Default::default()
        };
        let first = load(&cli, &env, &silent, &silent, &machine(), "");
        let project = layer(&autogenerated_yaml(&first));
        assert_eq!(project.listen.as_deref(), Some(text));
        assert_eq!(project.fqdn.as_deref(), Some(text));
        let none = CliOverrides::default();
        let again = load(&none, &env, &layer("port: 1\n"), &project, &machine(), "");
        assert_eq!((again.listen, again.port, again.debug), (first.listen, 8080, true));
        assert_eq!((again.log_dir, again.base_dir), (first.log_dir, first.base_dir));
        assert_eq!((again.fqdn, again.tls_enabled), (first.fqdn, first.tls_enabled));
    }
}

fn texts_of(letters: &[char], longest: usize) -> Vec<String> {
    let mut texts = vec![String::new()];
    let mut from = 0;
    for _ in 0..longest {
        let to = texts.len();
        for i in from..to {
            for c in letters {
                texts.push(format!("{}{c}", texts[i]));
            }
        }
        from = to;
    }
    texts
}

fn assert_read_back(texts: &[String]) {
    let (env, silent) = (Environment::default(), Layer::default());
    let mut r = load(&CliOverrides::default(), &env, &silent, &silent, &machine(), "");
    for pair in texts.chunks(2) {
        let (a, b) = (&pair[0], pair.last().unwrap());
        r.base_dir = a.clone();
        r.log_dir = b.clone();
        r.fqdn = Some(a.clone());
        let project = layer(&autogenerated_yaml(&r));
        assert_eq!(project.base_dir.as_deref(), Some(a.as_str()));
        assert_eq!(project.log_dir.as_deref(), Some(b.as_str()));
        assert_eq!(project.fqdn.as_deref(), Some(a.as_str()));
    }
}

#[test]
fn every_text_of_a_written_file_reads_back() {
    let letters = [
        ' ', 'a', '0', '\n', '\r', '\t', '#', ':', '-', '\'', '"', '\u{2028}', '\u{85}', '\u{1f980}',
    ];
    assert_read_back(&texts_of(&letters, 3));
}

#[test]
fn lines_of_a_written_file_read_back() {
    assert_read_back(&texts_of(&[' ', 'a', '\n', '\u{2028}'], 6));
}

#[test]
fn first_starts_are_remembered() {
    let env = Environment { debug: Some("true".to_string()), ..Default::default() };
    let cli = CliOverrides { listen: Some("127.0.0.1".to_string()), ..Default::default() };
    let missing = FileText::Missing;
    let (g, p) = read_layers("/g.yaml", &missing, "/p.yaml", &missing).ok().unwrap();
    let first = load(&cli, &env, &g, &p, &machine(), "/p.yaml");
    assert!(first_global_file(false, &missing).is_none());
    assert!(first_project_file(false, &missing, &first).is_none());
    let global = FileText::Text(first_global_file(true, &missing).unwrap());
    let project = FileText::Text(first_project_file(true, &missing, &first).unwrap());
    let (g, p) = read_layers("/g.yaml", &global, "/p.yaml", &project).ok().unwrap();
    let m = Machine {
        v6_available: false,
        nanos: 7,
        log_dir: "/other".to_string(),
        project_base_dir: Some(first.base_dir.clone()),
        taken_ports: vec![first.port],
        ..machine()
    };
    let later = load(&cli, &env, &g, &p, &m, "/p.yaml");
    assert_eq!((later.base_dir, later.listen), (first.base_dir, first.listen));
    assert_eq!((later.port, later.log_dir, later.debug), (first.port, first.log_dir, true));
    assert_eq!((later.fqdn, later.tls_enabled), (first.fqdn, first.tls_enabled));
    assert_eq!(later.directory_listing, first.directory_listing);
    assert!(first_global_file(true, &global).is_none());
    let again = load(&cli, &env, &g, &p, &m, "/p.yaml");
    assert!(first_project_file(true, &project, &again).is_none());
    let unreadable = FileText::Unreadable("no".to_string());
    assert!(first_global_file(true, &unreadable).is_none());
}

#[test]
fn comments_say_nothing() {
    for text in [GLOBAL_HEADER, "# port: 1\n", "#\n"] {
        let read: serde_yaml::Value = serde_yaml::from_str(text).unwrap();
        assert!(read.is_null());
        assert!(layer(text).port.is_none());
    }
}

#[test]
fn load_cli_override_wins_over_env_var() {
    let overrides = CliOverrides {
        base_dir: Some("/srv/site".to_string()),
        port: Some(1111),
        ..Default::default()
    };
    let env = Environment { port: Some("9999".to_string()), ..Default::default() };
    let resolved = load(&overrides, &env, &Layer::default(), &Layer::default(), &machine(), "");
    assert_eq!(resolved.port, 1111);
}

#[test]
fn settings_are_layered_from_the_command_line_down_to_the_defaults() {
    let global = layer("port: 1000\nlisten: 10.0.0.1\ndebug: true\n");
    let project = layer("port: 2000\n");
    let env = Environment::default();
    let none = CliOverrides::default();
    let r = load(&none, &env, &global, &project, &machine(), "");
    assert_eq!(r.port, 2000);
    assert_eq!(r.listen, "10.0.0.1");
    assert!(r.debug);
    let r = load(&none, &env, &global, &Layer::default(), &machine(), "");
    assert_eq!(r.port, 1000);
    let set = Environment {
        port: Some("3000".to_string()),
        debug: Some("false".to_string()),
        ..Default::default()
    };
    let r = load(&none, &set, &global, &project, &machine(), "");
    assert_eq!(r.port, 3000);
    assert!(!r.debug);
    let r = load(&none, &env, &Layer::default(), &Layer::default(), &machine(), "");
    assert_eq!(r.listen, "::1");
    assert!((59000..=59999).contains(&r.port));
    assert_eq!(r.log_dir, "/var/log/cashttpd");
    let v4 = Machine { v6_available: false, ..machine() };
    let r = load(&none, &env, &Layer::default(), &Layer::default(), &v4, "");
    assert_eq!(r.listen, "127.0.0.1");
}

#[test]
fn random_ports_lie_between_59000_and_59999() {
    for nanos in [0u32, 1, 999, 1000, 1001, 123_456_789, 999_999_999, u32::MAX] {
        assert!((59000..=59999).contains(&random_port(nanos)));
    }
    assert_eq!(random_port(0), 59000);
}

#[test]
fn truth_values_of_the_environment_are_read() {
    assert_eq!(pick_bool_env(&Some("true".to_string())), Some(true));
    assert_eq!(pick_bool_env(&Some("1".to_string())), Some(true));
    assert_eq!(pick_bool_env(&Some("false".to_string())), Some(false));
    assert_eq!(pick_bool_env(&Some("0".to_string())), Some(false));
    assert_eq!(pick_bool_env(&None), None);
}

#[test]
fn config_files_are_found_by_the_name_of_the_project() {
    let cli = CliOverrides { base_dir: Some("/srv/site".to_string()), ..Default::default() };
    let env = Environment::default();
    let canonical = Some("/srv/site".to_string());
    let (global, project) = config_paths(&cli, &env, "/home/u/.config/casapps/cashttpd", &canonical);
    assert!(global.starts_with("/home/u/.config/casapps/cashttpd/"));
    assert_eq!(project, "/home/u/.config/casapps/cashttpd/projects/_srv_site.yaml");
    let named = CliOverrides { config_path: Some("/x/y.yaml".to_string()), ..Default::default() };
    assert_eq!(config_paths(&named, &env, "/c", &None).1, "/x/y.yaml");
    assert_eq!(tested_paths(&named, "/c", &None).1, "/x/y.yaml");
    assert_eq!(requested_base_dir(&cli, &env), "/srv/site");
    assert_eq!(requested_base_dir(&named, &env), ".");
}

#[test]
fn files_that_are_missing_say_nothing_and_others_are_read() {
    let nothing = read_layer("/x.yaml", &FileText::Missing).ok().expect("a missing file is no error");
    assert!(nothing.port.is_none() && nothing.listen.is_none() && nothing.cors.is_none());
    let l = layer("tls:\n  enabled: true\nfqdn: example.test\nport: \"70000\"\n");
    assert_eq!(l.tls_enabled, Some(true));
    assert_eq!(l.fqdn.as_deref(), Some("example.test"));
    assert_eq!(l.port, None);
    let err = read_layer("/x.yaml", &file("a: [")).err().expect("malformed");
    assert!(err.contains("/x.yaml"));
}

#[test]
fn a_project_replaces_and_removes_single_handlers() {
    let known = builtin_script_handlers();
    assert!(known.contains_key(".php") || known.contains_key("php"));
    let key = if known.contains_key(".php") { ".php" } else { "php" };
    let text = format!("script_handlers:\n  \"{key}\": false\n");
    let r = load(
        &CliOverrides::default(),
        &Environment::default(),
        &Layer::default(),
        &layer(&text),
        &machine(),
        "",
    );
    assert_eq!(r.script_handlers.len(), known.len());
}

#[test]
fn extensions_of_a_project_are_added_once() {
    let known = builtin_ssi_extensions();
    let n = known.len();
    assert!(n > 0);
    let same = layer_ssi(builtin_ssi_extensions(), &None);
    assert_eq!(same, known);
    let chosen = layer_ssi(builtin_ssi_extensions(), &Some(vec![known[0].clone(), known[0].clone()]));
    assert_eq!(chosen.iter().filter(|e| **e == known[0]).count(), 1);
}

#[test]
fn headers_are_overridden_and_removed_by_name() {
    let mut base = Table::<String>::new();
    base.insert("X-One", "1".to_string());
    base.insert("X-Two", "2".to_string());
    let mut overrides = Table::<Option<String>>::new();
    overrides.insert("X-One", None);
    overrides.insert("X-Three", Some("3".to_string()));
    merge_header_overrides(&mut base, &overrides);
    assert!(base.get("X-One").is_none());
    assert_eq!(base.get("X-Two").map(String::as_str), Some("2"));
    assert_eq!(base.get("X-Three").map(String::as_str), Some("3"));
}

#[test]
fn cross_origin_headers_are_resolved_from_both_files() {
    let all = resolve_cors(&None, &None).expect("on by default");
    assert_eq!(all.get("Access-Control-Allow-Origin").map(String::as_str), Some("*"));
    assert!(resolve_cors(&Some(CorsLayer::Disabled), &None).is_none());
    assert!(resolve_cors(&None, &Some(CorsLayer::Disabled)).is_none());
}

#[test]
fn builtin_headers_can_be_listed() {
    let plain = builtin_security_headers(false, ServerTokens::Prod, "linux", "x86_64");
    let tls = builtin_security_headers(true, ServerTokens::Prod, "linux", "x86_64");
    assert_eq!(tls.len(), plain.len() + 1);
    assert!(builtin_cors_headers().len() > 0);
}
