use cashttpd::assets::LICENSE_TEXT;
use cashttpd::platforms::{
    bare_posture, config_dir, data_dir, drop_privileges_if_root, log_dir, sandboxing_posture,
    Family, PrivilegeStep, GROUP_LINE, SERVICE_USER, USER_LINE,
};
use cashttpd::supports::calendar::{civil_date_from_unix, days_from_civil};
use cashttpd::supports::color::{
    color_enabled, light_background, terminal_palette_dark, terminal_palette_light,
};
use cashttpd::supports::format::{count, duration, size};
use cashttpd::supports::rotation::{
    expired_files, is_rotated_name, parse_keep, parse_rotate, rotate_fits, rotated_name,
    should_rotate, time_boundary_crossed, KeepPolicy, RotatePolicy, RotatedFile, TimeUnit,
};
use cashttpd::supports::signal::ShutdownState;
use cashttpd::supports::version::{build_date, epoch_date};
use cashttpd::tasks::dispatch;
use cashttpd::uis::{
    banner, config_report, detect_ui_mode, fatal_line, scan_args, version_line, Flags, Invocation,
    Terminal, UiMode,
};

#[test]
fn embedded_license_text_is_present_and_complete() {
    assert!(
        LICENSE_TEXT.contains("# Project License"),
        "hand-written license region must be embedded"
    );
    assert!(
        LICENSE_TEXT.contains("# Third-Party Crate Attributions"),
        "generated attribution region must be embedded"
    );
}

#[test]
fn sandboxing_posture_is_non_empty() {
    assert!(!sandboxing_posture().is_empty());
    assert!(!bare_posture().is_empty());
}

#[test]
fn config_data_log_dirs_are_distinct_and_non_empty() {
    for family in [Family::Unix, Family::MacOs, Family::Windows] {
        for home in [None, Some("/home/u".to_string())] {
            let c = config_dir(family, &home, &None);
            let d = data_dir(family, &home, &None);
            let l = log_dir(family, &home, &None);
            assert!(!c.is_empty());
            assert!(!d.is_empty());
            assert!(!l.is_empty());
            assert_ne!(c, d);
            assert_ne!(d, l);
        }
    }
    let home = Some("/home/u".to_string());
    assert_eq!(config_dir(Family::Unix, &home, &None), "/home/u/.config/casapps/cashttpd");
    assert_eq!(data_dir(Family::Unix, &home, &None), "/home/u/.local/share/casapps/cashttpd");
    assert_eq!(log_dir(Family::Unix, &home, &None), "/home/u/.local/state/casapps/cashttpd/logs");
    assert_eq!(
        config_dir(Family::Unix, &home, &Some("/x".to_string())),
        "/x/casapps/cashttpd"
    );
}

#[test]
fn root_takes_on_the_service_user() {
    assert!(drop_privileges_if_root(false, "", "").is_empty());
    let steps = drop_privileges_if_root(true, "root:x:0:\n", "root:x:0:0::/root:/bin/sh\n");
    assert_eq!(
        steps,
        vec![
            PrivilegeStep::AddGroup,
            PrivilegeStep::AddUser,
            PrivilegeStep::TakeGroup(8877),
            PrivilegeStep::TakeUser(8877),
        ]
    );
    let known = drop_privileges_if_root(true, GROUP_LINE, USER_LINE);
    assert_eq!(known, vec![PrivilegeStep::TakeGroup(8877), PrivilegeStep::TakeUser(8877)]);
    assert!(USER_LINE.starts_with(SERVICE_USER));
    let own = drop_privileges_if_root(
        true,
        "root:x:0:\ncashttpd:x:321:\n",
        "root:x:0:0::/root:/bin/sh\ncashttpd:x:123:321::/:/sbin/nologin\n",
    );
    assert_eq!(own, vec![PrivilegeStep::TakeGroup(321), PrivilegeStep::TakeUser(123)]);
    let odd = drop_privileges_if_root(true, "cashttpd:x:0:\n", "cashttpd:x:many:1::/:/\n");
    assert_eq!(odd, vec![PrivilegeStep::TakeGroup(8877), PrivilegeStep::TakeUser(8877)]);
}

#[test]
fn folders_of_windows_are_found() {
    let home = Some("C:\\Users\\u".to_string());
    let set = Some("D:\\Data".to_string());
    assert_eq!(config_dir(Family::Windows, &home, &set), "D:\\Data\\casapps\\cashttpd\\config");
    assert_eq!(data_dir(Family::Windows, &home, &set), "D:\\Data\\casapps\\cashttpd\\data");
    assert_eq!(log_dir(Family::Windows, &home, &set), "D:\\Data\\casapps\\cashttpd\\logs");
}

#[test]
fn forced_flag_wins() {
    assert!(color_enabled(Some(true), None, false, None));
    assert!(!color_enabled(Some(false), None, true, Some("xterm")));
}

#[test]
fn dark_and_light_palettes_differ() {
    assert_ne!(terminal_palette_dark().primary, terminal_palette_light().primary);
}

#[test]
fn terminals_decide_over_colors() {
    assert!(color_enabled(None, None, true, Some("xterm")));
    assert!(!color_enabled(None, None, false, Some("xterm")));
    assert!(!color_enabled(None, Some("1"), true, Some("xterm")));
    assert!(!color_enabled(None, None, true, Some("dumb")));
    assert!(light_background(Some("0;15")));
    assert!(!light_background(Some("15;0")));
    assert!(!light_background(None));
}

#[test]
fn parse_rotate_handles_combined_policy() {
    let p = parse_rotate("weekly,50MB");
    assert_eq!(p.time, Some(TimeUnit::Weekly));
    assert_eq!(p.size_bytes, Some(50 * 1024 * 1024));
    assert!(rotate_fits("weekly,50MB"));
}

#[test]
fn parse_rotate_handles_never() {
    let p = parse_rotate("never");
    assert!(p.time.is_none());
    assert!(p.size_bytes.is_none());
}

#[test]
fn parse_keep_handles_all_variants() {
    assert_eq!(parse_keep("none"), KeepPolicy::Nothing);
    assert_eq!(parse_keep("forever"), KeepPolicy::Forever);
    assert_eq!(parse_keep("5"), KeepPolicy::Count(5));
    assert_eq!(parse_keep("30d"), KeepPolicy::Days(30));
    assert_eq!(parse_keep("4w"), KeepPolicy::Weeks(4));
    assert_eq!(parse_keep("2m"), KeepPolicy::Months(2));
}

#[test]
fn civil_date_from_unix_matches_known_date() {
    assert_eq!(civil_date_from_unix(1704067200), (2024, 1, 1));
}

#[test]
fn should_rotate_by_size_limit() {
    let policy = RotatePolicy { time: None, size_bytes: Some(100) };
    assert!(should_rotate(&policy, 150, 0, 0));
    assert!(!should_rotate(&policy, 50, 0, 0));
}

#[test]
fn periods_end_where_the_calendar_says_so() {
    let day = 86400u64;
    let new_year = 1704067200u64;
    assert!(time_boundary_crossed(TimeUnit::Daily, new_year - 1, new_year));
    assert!(!time_boundary_crossed(TimeUnit::Daily, new_year, new_year + day - 1));
    assert!(time_boundary_crossed(TimeUnit::Yearly, new_year - 1, new_year));
    assert!(!time_boundary_crossed(TimeUnit::Yearly, new_year, new_year + 300 * day));
    assert!(time_boundary_crossed(TimeUnit::Monthly, new_year, new_year + 31 * day));
    assert!(!time_boundary_crossed(TimeUnit::Monthly, new_year, new_year + 30 * day));
    assert!(time_boundary_crossed(TimeUnit::Weekly, new_year, new_year + 7 * day));
}

#[test]
fn rotate_file_renames_and_retains_per_keep_policy() {
    let now = 1704067200u64;
    let active = "/logs/proj_access.log";
    let first = rotated_name(active, now, 0);
    let second = rotated_name(active, now, 1);
    assert_ne!(first, active);
    assert_ne!(first, second);
    let name = first.rsplit('/').next().unwrap();
    assert!(is_rotated_name("proj_access.log", name));
    assert!(!is_rotated_name("proj_access.log", "proj_access.log"));
    let files = vec![
        RotatedFile { path: first.clone(), modified: now as i128 * 1_000_000_000 },
        RotatedFile { path: second.clone(), modified: (now as i128 - 100 * 86400) * 1_000_000_000 },
    ];
    assert!(expired_files(&files, KeepPolicy::Forever, now).is_empty());
    assert_eq!(expired_files(&files, KeepPolicy::Nothing, now).len(), 2);
    assert_eq!(expired_files(&files, KeepPolicy::Count(1), now), vec![second.clone()]);
    assert_eq!(expired_files(&files, KeepPolicy::Days(30), now), vec![second]);
}

#[test]
fn days_from_civil_matches_known_epoch_offsets() {
    assert_eq!(days_from_civil(1970, 1, 1), 0);
    assert_eq!(days_from_civil(1970, 1, 2), 1);
    assert_eq!(days_from_civil(2000, 3, 1), 11017);
}

#[test]
fn duration_formats() {
    assert_eq!(duration(1), "1 second");
    assert_eq!(duration(45), "45 seconds");
    assert_eq!(duration(180), "3 minutes");
    assert_eq!(duration(125), "2 minutes 5 seconds");
    assert_eq!(duration(7200), "2 hours");
    assert_eq!(duration(5400), "1 hour 30 minutes");
    assert_eq!(duration(90 * 3600 + 4 * 3600 - 90 * 3600), "4 hours");
    assert_eq!(duration(3 * 86400 + 4 * 3600), "3 days 4 hours");
}

#[test]
fn size_formats() {
    assert_eq!(size(1), "1 byte");
    assert_eq!(size(512), "512 bytes");
    assert_eq!(size(1024), "1 kilobyte");
    assert_eq!(size(1024 * 1024 * 5 / 2), "2.5 megabytes");
    assert_eq!(size(5u64 * 1024 * 1024 * 1024), "5 gigabytes");
}

#[test]
fn count_formats() {
    assert_eq!(count(12847), "12,847");
    assert_eq!(count(999), "999");
    assert_eq!(count(1000), "1,000");
}

#[test]
fn fresh_state_has_no_shutdown_requested() {
    let state = ShutdownState { shutdown_requested: false, child_pid: 0 };
    assert!(!state.is_shutdown_requested());
}

#[test]
fn signal_fresh_state_has_no_shutdown_requested() {
    let state = ShutdownState::new();
    assert!(!state.is_shutdown_requested());
    assert!(!ShutdownState::new_for_test().is_shutdown_requested());
}

#[test]
fn track_and_clear_child_process_round_trips() {
    let mut state = ShutdownState { shutdown_requested: false, child_pid: 0 };
    state.track_child_process(4242);
    assert_eq!(state.child_pid, 4242);
    state.clear_child_process();
    assert_eq!(state.child_pid, 0);
}

#[test]
fn the_second_signal_ends_the_server_at_once() {
    let mut state = ShutdownState::new();
    state.track_child_process(7);
    let first = state.deliver();
    assert_eq!(first.terminate, Some(7));
    assert!(!first.exit_now);
    assert!(state.is_shutdown_requested());
    let second = state.deliver();
    assert!(second.exit_now);
}

#[test]
fn dates_of_builds_are_written_in_utc() {
    assert_eq!(build_date(), "N/A");
    assert_eq!(epoch_date("1704067200"), "2024-01-01T00:00:00Z");
    assert_eq!(epoch_date("1709210096"), "2024-02-29T12:34:56Z");
    assert_eq!(epoch_date("253402300799"), "9999-12-31T23:59:59Z");
    assert_eq!(epoch_date("253402300800"), "N/A");
    assert_eq!(epoch_date("0"), "N/A");
    assert_eq!(epoch_date("x"), "N/A");
}

#[test]
fn dispatch_with_no_task_reports_usage() {
    assert_eq!(dispatch(""), "usage: xtask <task>");
}

#[test]
fn dispatch_with_unknown_task_reports_it() {
    assert_eq!(dispatch("build"), "unknown task: build");
}

fn args(rest: &[&str]) -> Vec<String> {
    std::iter::once("cashttpd".to_string())
        .chain(rest.iter().map(|s| s.to_string()))
        .collect()
}

fn terminal(tty: bool) -> Terminal {
    Terminal {
        no_color: None,
        stdin_tty: tty,
        stdout_tty: tty,
        term: Some("xterm".to_string()),
        ci: None,
    }
}

#[test]
fn daemon_flag_forces_cli_mode_regardless_of_terminal_state() {
    assert_eq!(detect_ui_mode(&args(&["--daemon"]), &terminal(true)), UiMode::Cli);
    assert_eq!(detect_ui_mode(&args(&["--daemon"]), &terminal(false)), UiMode::Cli);
}

#[test]
fn print_and_exit_flags_and_serve_all_force_cli_mode() {
    for flag in [
        "serve", "--daemon", "--quiet", "--config-test", "-t", "--version", "-v", "--help", "-h",
        "--licenses", "--credits",
    ] {
        assert_eq!(
            detect_ui_mode(&args(&[flag]), &terminal(true)),
            UiMode::Cli,
            "{flag} must never be routed to the TUI"
        );
    }
}

#[test]
fn cli_forcing_args_are_matched_positionally_but_never_in_argv0() {
    let t = terminal(true);
    assert_eq!(detect_ui_mode(&args(&["serve", "--port", "8080"]), &t), UiMode::Cli);
    assert_eq!(detect_ui_mode(&args(&["serve", "--quiet"]), &t), UiMode::Cli);
    assert_eq!(
        detect_ui_mode(&vec!["/opt/serve/cashttpd".to_string()], &t),
        detect_ui_mode(&vec!["cashttpd".to_string()], &t),
        "a path component matching a flag name must not force CLI"
    );
    assert_eq!(detect_ui_mode(&vec!["serve".to_string()], &t), UiMode::Tui);
}

#[test]
fn no_daemon_flag_falls_back_to_cli_in_non_terminal_test_harness() {
    let args: Vec<String> = vec![];
    assert_eq!(detect_ui_mode(&args, &terminal(false)), UiMode::Cli);
    assert_eq!(detect_ui_mode(&args, &terminal(true)), UiMode::Tui);
    for t in [
        Terminal { no_color: Some("1".to_string()), ..terminal(true) },
        Terminal { term: Some("dumb".to_string()), ..terminal(true) },
        Terminal { ci: Some("true".to_string()), ..terminal(true) },
    ] {
        assert_eq!(detect_ui_mode(&args, &t), UiMode::Cli);
    }
    for ci in ["", "0", "FALSE"] {
        let t = Terminal { ci: Some(ci.to_string()), ..terminal(true) };
        assert_eq!(detect_ui_mode(&args, &t), UiMode::Tui);
    }
}

#[test]
fn version_flag_prints_and_reports_success() {
    assert_eq!(scan_args(&vec!["--version".to_string()]), Invocation::Version);
    assert_eq!(scan_args(&vec!["-V".to_string()]), Invocation::Version);
    assert_eq!(version_line(), "cashttpd 0.1.0 (commit N/A, built N/A)");
}

#[test]
fn config_test_flag_reports_success_since_validate_is_currently_infallible() {
    assert_eq!(scan_args(&vec!["--config-test".to_string()]), Invocation::ConfigTest);
    assert_eq!(scan_args(&vec!["-t".to_string()]), Invocation::ConfigTest);
    assert_eq!(
        config_report(&Ok(())),
        ("cashttpd: configuration syntax is ok".to_string(), 0)
    );
    assert_eq!(
        config_report(&Err("x".to_string())),
        ("cashttpd: configuration error: x".to_string(), 1)
    );
}

#[test]
fn no_recognized_flags_falls_back_to_cli_banner_and_reports_success() {
    assert_eq!(scan_args(&vec![]), Invocation::Banner);
    assert_eq!(banner(UiMode::Cli), "cashttpd 0.1.0 (cli mode)");
}

#[test]
fn run_prints_the_banner_without_panicking() {
    assert_eq!(banner(UiMode::Tui), "cashttpd 0.1.0 (tui mode)");
}

#[test]
fn flags_are_weighed_in_order() {
    let flags = Flags {
        version: false,
        config_test: true,
        serve: Some(true),
        color: Some("yes".to_string()),
        serve_color: Some("no".to_string()),
    };
    assert_eq!(flags.invocation(), Invocation::ConfigTest);
    assert_eq!(flags.forced_color(), Some(false));
    let serve = Flags { config_test: false, serve_color: None, ..flags };
    assert_eq!(serve.invocation(), Invocation::Serve(true));
    assert_eq!(serve.forced_color(), Some(true));
    let auto = Flags { color: Some("auto".to_string()), ..serve };
    assert_eq!(auto.forced_color(), None);
    assert_eq!(fatal_line("boom"), "cashttpd: fatal: boom");
}
