use base64::Engine;
use cashttpd::net::{cidr_contains, is_public_addr, IpAddr};
use cashttpd::servers::cascade::{access_allowed, cascade_dirs, group_members, is_authorized, merge_cascade};
use cashttpd::servers::htaccess::{
    parse, AccessRule, Order, Redirect, Require, RewriteCond, RewriteRule, Rules,
};
use cashttpd::servers::passwords::{apr1_crypt, parse_basic_auth, verify_hash, verify_password};
use cashttpd::servers::rewrite::{apply_rewrites, RewriteOutcome};
use cashttpd::table::Table;
use sha1::Digest;

#[test]
fn cascade_merges_root_and_subdirectory_directives() {
    let dirs = cascade_dirs("/srv", "/srv/sub");
    assert_eq!(dirs.len(), 2);
    let texts = vec![
        Some("AuthType Basic\nAuthName \"Top\"\n".to_string()),
        Some("Require valid-user\n".to_string()),
    ];
    let rules = merge_cascade("/srv", "/srv/sub", &texts);
    assert_eq!(rules.auth_type.as_deref(), Some("Basic"));
    assert_eq!(rules.auth_name.as_deref(), Some("Top"));
    assert!(rules.require_valid_user());
}

#[test]
fn access_allowed_respects_order_deny_allow() {
    let mut rules = Rules {
        order: Some(Order::AllowDeny),
        deny: vec![AccessRule::All],
        ..Default::default()
    };
    assert!(!access_allowed(&rules, "10.0.0.5"));

    rules.allow.push(AccessRule::Cidr(IpAddr::parse("10.0.0.0").unwrap(), 8));
    assert!(!access_allowed(&rules, "10.0.0.5"));
}

#[test]
fn access_allowed_with_no_directives_is_open() {
    let rules = Rules::default();
    assert!(access_allowed(&rules, "anything"));
}

#[test]
fn parse_basic_auth_decodes_credentials() {
    let header = "Basic YWxpY2U6c2VjcmV0";
    let (user, pass) = parse_basic_auth(header).unwrap();
    assert_eq!(user, "alice");
    assert_eq!(pass, "secret");
    assert!(parse_basic_auth("Bearer YWxpY2U6c2VjcmV0").is_none());
    assert!(parse_basic_auth("Basic !!!").is_none());
    assert!(parse_basic_auth("Basic YWxpY2U=").is_none());
}

#[test]
fn verify_password_checks_sha_format() {
    let mut hasher = sha1::Sha1::new();
    hasher.update(b"secret");
    let digest = hasher.finalize();
    let hash = format!(
        "{{SHA}}{}",
        base64::engine::general_purpose::STANDARD.encode(digest)
    );
    let file = format!("alice:{hash}\n");
    assert!(verify_password(Some(&file), "alice", "secret"));
    assert!(!verify_password(Some(&file), "alice", "wrong"));
    assert!(!verify_password(Some(&file), "bob", "secret"));
    assert!(!verify_password(None, "alice", "secret"));
}

#[test]
fn verify_password_checks_bcrypt_format() {
    let hash = bcrypt::hash("secret", 4).unwrap();
    let file = format!("bob:{hash}\n");
    assert!(verify_password(Some(&file), "bob", "secret"));
    assert!(!verify_password(Some(&file), "bob", "wrong"));
}

#[test]
fn apr1_crypt_matches_known_test_vector() {
    let hash = apr1_crypt("myPassword", "r31.....");
    assert_eq!(hash, "$apr1$r31.....$HqJZimcKQFAMYayBlzkrA/");
}

#[test]
fn verify_password_checks_apr1_format() {
    let file = "carol:$apr1$r31.....$HqJZimcKQFAMYayBlzkrA/\n";
    assert!(verify_password(Some(file), "carol", "myPassword"));
    assert!(!verify_password(Some(file), "carol", "wrong"));
    assert!(!verify_hash("$apr1$nonsense", "myPassword"));
}

#[test]
fn group_members_parses_group_file() {
    let members = group_members(Some("admins: alice bob\n"), "admins");
    assert_eq!(members, vec!["alice".to_string(), "bob".to_string()]);
    assert!(group_members(Some("admins: alice bob\n"), "users").is_empty());
    assert!(group_members(None, "admins").is_empty());
}

#[test]
fn is_authorized_checks_require_user_and_group() {
    let rules = Rules {
        requires: vec![Require::User(vec!["alice".to_string()])],
        ..Default::default()
    };
    assert!(is_authorized(&rules, "alice", None));
    assert!(!is_authorized(&rules, "bob", None));
    let groups = Rules {
        requires: vec![Require::Group(vec!["admins".to_string()])],
        auth_group_file: Some("/srv/.htgroup".to_string()),
        ..Default::default()
    };
    assert!(is_authorized(&groups, "bob", Some("admins: alice bob\n")));
    assert!(!is_authorized(&groups, "eve", Some("admins: alice bob\n")));
}

fn rewriting(pattern: &str, substitution: &str, flags: &[&str]) -> Rules {
    Rules {
        rewrite_engine: true,
        rewrite_rules: vec![RewriteRule {
            pattern: pattern.to_string(),
            substitution: substitution.to_string(),
            flags: flags.iter().map(|f| f.to_string()).collect(),
            conds: Vec::new(),
            dir: String::new(),
        }],
        ..Default::default()
    }
}

#[test]
fn apply_rewrites_redirects_on_r_flag() {
    let rules = rewriting("^old/(.*)$", "new/$1", &["R=301"]);
    let headers = Table::new();
    match apply_rewrites(&rules, "/old/page", "", "GET", "127.0.0.1", &headers) {
        RewriteOutcome::Redirect(301, target) => assert_eq!(target, "/new/page"),
        other => panic!("expected redirect, got {other:?}"),
    }
}

#[test]
fn apply_rewrites_internal_rewrite_without_flag() {
    let rules = rewriting("^alias$", "real.html", &[]);
    let headers = Table::new();
    match apply_rewrites(&rules, "/alias", "", "GET", "127.0.0.1", &headers) {
        RewriteOutcome::Rewritten(p) => assert_eq!(p, "/real.html"),
        other => panic!("expected rewrite, got {other:?}"),
    }
}

#[test]
fn apply_rewrites_redirect_directive_prefix_match() {
    let rules = Rules {
        redirects: vec![Redirect {
            is_regex: false,
            status: 302,
            pattern: "/old".to_string(),
            target: "/new".to_string(),
        }],
        ..Default::default()
    };
    let headers = Table::new();
    match apply_rewrites(&rules, "/old/page", "", "GET", "127.0.0.1", &headers) {
        RewriteOutcome::Redirect(302, target) => assert_eq!(target, "/new"),
        other => panic!("expected redirect, got {other:?}"),
    }
}

#[test]
fn rewrites_keep_letters_of_every_language() {
    let rules = rewriting("^old/(.*)$", "\u{fc}ber/$1-\u{1f980}", &["R=302"]);
    match apply_rewrites(&rules, "/old/caf\u{e9}", "", "GET", "127.0.0.1", &Table::new()) {
        RewriteOutcome::Redirect(302, target) => {
            assert_eq!(target, "/\u{fc}ber/caf\u{e9}-\u{1f980}");
        }
        other => panic!("expected redirect, got {other:?}"),
    }
}

#[test]
fn conditions_decide_over_rewrites() {
    let mut rules = rewriting("^(.*)$", "maintenance.html", &[]);
    rules.rewrite_rules[0].conds.push(RewriteCond {
        test_string: "%{HTTP_HOST}".to_string(),
        pattern: "BOT".to_string(),
        negate: false,
        nocase: true,
    });
    let mut headers = Table::new();
    headers.insert("host", "some.bot".to_string());
    assert!(matches!(
        apply_rewrites(&rules, "/a", "", "GET", "127.0.0.1", &headers),
        RewriteOutcome::Rewritten(_)
    ));
    headers.insert("host", "a.person".to_string());
    assert!(matches!(
        apply_rewrites(&rules, "/a", "", "GET", "127.0.0.1", &headers),
        RewriteOutcome::Unchanged
    ));
    let broken = rewriting("(", "x", &[]);
    assert!(matches!(
        apply_rewrites(&broken, "/a", "", "GET", "127.0.0.1", &headers),
        RewriteOutcome::Unchanged
    ));
}

#[test]
fn directives_are_read_from_text() {
    let rules = parse(
        "# comment\nOptions -Indexes +FollowSymLinks\nDirectoryIndex a.html b.html\nErrorDocument 404 /nope.html\nOrder deny,allow\nDeny from all\nAllow from 10.0.0.0/8\nRewriteEngine On\nRewriteRule ^x$ y [R=302,L]\nRedirect 301 /from /to\n",
        "",
        "/srv",
    );
    assert_eq!(rules.indexes, Some(false));
    assert_eq!(rules.follow_symlinks, Some(true));
    assert_eq!(
        rules.directory_index,
        Some(vec!["a.html".to_string(), "b.html".to_string()])
    );
    assert_eq!(rules.error_document(404).map(String::as_str), Some("/nope.html"));
    assert_eq!(rules.error_document(500), None);
    assert_eq!(rules.order, Some(Order::DenyAllow));
    assert!(rules.rewrite_engine);
    assert_eq!(rules.rewrite_rules.len(), 1);
    assert_eq!(rules.redirects.len(), 1);
    assert!(access_allowed(&rules, "10.1.2.3"));
    assert!(!access_allowed(&rules, "11.1.2.3"));
}

#[test]
fn is_public_addr_rejects_loopback_and_private() {
    assert!(!is_public_addr("127.0.0.1"));
    assert!(!is_public_addr("::1"));
    assert!(!is_public_addr("10.0.0.5"));
    assert!(!is_public_addr("172.16.0.5"));
    assert!(!is_public_addr("192.168.1.5"));
    assert!(!is_public_addr("169.254.1.1"));
    assert!(!is_public_addr("fe80::1"));
    assert!(!is_public_addr("fc00::1"));
}

#[test]
fn is_public_addr_accepts_unspecified_and_public() {
    assert!(is_public_addr("0.0.0.0"));
    assert!(is_public_addr("::"));
    assert!(is_public_addr("203.0.113.5"));
    assert!(is_public_addr("2001:db8::1"));
}

#[test]
fn is_public_addr_rejects_unparsable() {
    assert!(!is_public_addr("not-an-ip"));
}

#[test]
fn addresses_are_read() {
    for (s, n) in [("1.2.3.4", 0x0102_0304u32), ("255.255.255.255", u32::MAX), ("0.0.0.0", 0)] {
        assert!(matches!(IpAddr::parse(s), Some(IpAddr::V4(m)) if m == n), "{s}");
    }
    for (s, n) in [
        ("::", 0u128),
        ("::1", 1),
        ("1::", 1 << 112),
        ("1:2:3:4:5:6:7:8", 0x0001_0002_0003_0004_0005_0006_0007_0008),
        ("1:2:3:4:5:6:7::", 0x0001_0002_0003_0004_0005_0006_0007_0000),
        ("::ffff:1.2.3.4", 0xffff_0102_0304),
        ("1:2:3:4:5:6:1.2.3.4", 0x0001_0002_0003_0004_0005_0006_0102_0304),
    ] {
        assert!(matches!(IpAddr::parse(s), Some(IpAddr::V6(m)) if m == n), "{s}");
    }
    for s in [
        "01.2.3.4", "256.1.1.1", "1.2.3", "12345::", "1::2::3", "g::", "", ":", ":::", "1.2.3.4.5",
        "fe80::1%eth0", "+1.2.3.4",
    ] {
        assert!(IpAddr::parse(s).is_none(), "{s}");
    }
    let net = IpAddr::parse("10.0.0.0").unwrap();
    assert!(cidr_contains(net, 8, IpAddr::parse("10.255.0.1").unwrap()));
    assert!(!cidr_contains(net, 8, IpAddr::parse("11.0.0.1").unwrap()));
    assert!(cidr_contains(net, 0, IpAddr::parse("11.0.0.1").unwrap()));
    assert!(!cidr_contains(net, 0, IpAddr::parse("::1").unwrap()));
}
