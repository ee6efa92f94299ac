//! Starting and stopping: the options of the command line, and what the server
//! says of itself.

use vstd::prelude::*;

use crate::configs::headers::{
    builtin_cors_headers, builtin_security_headers, default_cors, default_headers, server_header,
    ServerTokens,
};
use crate::configs::resolve::{
    builtin_ssi_extensions, default_ssi, no_options, CliOverrides, CliView, Resolved, ResolvedView,
};
use crate::configs::{silent_proxy, ProxyLayer};
use crate::digits::{decimal, decimal_of, number16, parse_u16};
use crate::supports::format::{count, duration, duration_text, grouped};
use crate::supports::version::VERSION;
use crate::table::Table;
use crate::text::{contains_char, has_prefix, starts_with};

verus! {

// ---------------------------------------------------------------------------
// Options
// ---------------------------------------------------------------------------

/// The options after one with a value.
pub open spec fn with_value(o: CliView, name: Seq<char>, v: Seq<char>) -> CliView {
    if name == "--listen"@ {
        CliView { listen: Some(v), ..o }
    } else if name == "--port"@ {
        match number16(v) {
            Some(p) => CliView { port: Some(p), ..o },
            None => o,
        }
    } else if name == "--dir"@ {
        CliView { base_dir: Some(v), ..o }
    } else if name == "--fqdn"@ {
        CliView { fqdn: Some(v), ..o }
    } else if name == "--log"@ {
        CliView { log_dir: Some(v), ..o }
    } else {
        CliView { config_path: Some(v), ..o }
    }
}

/// Whether an option takes a value.
pub open spec fn takes_value(name: Seq<char>) -> bool {
    name == "--listen"@ || name == "--port"@ || name == "--dir"@ || name == "--fqdn"@ || name
        == "--log"@ || name == "--config"@
}

/// The options of a command line from a place on. A word that is no option is
/// passed over, and of two options with one name the later one counts.
pub open spec fn options_from(args: Seq<Seq<char>>, i: int, o: CliView) -> CliView
    decreases args.len() - i,
{
    if i < 0 || i >= args.len() {
        o
    } else if takes_value(args[i]) && i + 1 < args.len() {
        options_from(args, i + 2, with_value(o, args[i], args[i + 1]))
    } else if args[i] == "--debug"@ {
        options_from(args, i + 1, CliView { debug: Some(true), ..o })
    } else {
        options_from(args, i + 1, o)
    }
}

fn is_valued(name: &str) -> (r: bool)
    ensures
        r == takes_value(name@),
{
    name.eq("--listen") || name.eq("--port") || name.eq("--dir") || name.eq("--fqdn") || name.eq(
        "--log",
    ) || name.eq("--config")
}

fn take_value(o: &mut CliOverrides, name: &str, v: &str)
    requires
        takes_value(name@),
    ensures
        final(o)@ == with_value(old(o)@, name@, v@),
{
    if name.eq("--listen") {
        o.listen = Some(v.to_owned());
    } else if name.eq("--port") {
        if let Some(p) = parse_u16(v) {
            o.port = Some(p);
        }
    } else if name.eq("--dir") {
        o.base_dir = Some(v.to_owned());
    } else if name.eq("--fqdn") {
        o.fqdn = Some(v.to_owned());
    } else if name.eq("--log") {
        o.log_dir = Some(v.to_owned());
    } else {
        o.config_path = Some(v.to_owned());
    }
}

/// The options of a command line.
pub fn parse_cli_overrides(args: &Vec<String>) -> (r: CliOverrides)
    ensures
        r@ == options_from(args.deep_view(), 0, no_options()),
{
    let ghost all = args.deep_view();
    let n: usize = args.len();
    let mut o = CliOverrides::default();
    let mut i: usize = 0;
    while i < n
        invariant
            i <= n,
            n == args@.len(),
            all == args.deep_view(),
            options_from(all, 0, no_options()) == options_from(all, i as int, o@),
        decreases n - i,
    {
        assert(all[i as int] == args@[i as int]@);
        proof {
            reveal_strlit("--debug");
        }
        if is_valued(args[i].as_str()) && i + 1 < n {
            assert(all[i + 1] == args@[i + 1]@);
            take_value(&mut o, args[i].as_str(), args[i + 1].as_str());
            i = i + 2;
        } else {
            if args[i].as_str().eq("--debug") {
                o.debug = Some(true);
            }
            i = i + 1;
        }
    }
    o
}

/// The settings where nothing can be read.
pub open spec fn fallback(
    dir: Seq<char>,
    log_dir: Seq<char>,
    os: Seq<char>,
    arch: Seq<char>,
) -> ResolvedView {
    ResolvedView {
        base_dir: dir,
        listen: "::1"@,
        port: 8080,
        log_dir,
        debug: false,
        fqdn: None,
        tls_enabled: false,
        directory_listing: false,
        mime_types: Map::empty(),
        script_handlers: Map::empty(),
        ssi_extensions: default_ssi(),
        security_headers: default_headers(false, server_header(ServerTokens::Full, os, arch)),
        cors: Some(default_cors()),
        proxy: silent_proxy(),
        logging_access_format: "combined"@,
        logging_access_rotate: "daily"@,
        logging_access_keep: "30d"@,
        logging_error_format: "standard"@,
        logging_error_rotate: "daily"@,
        logging_error_keep: "30d"@,
        project_config_path: ""@,
    }
}

/// The settings where nothing can be read: the current directory is served, or
/// `.` where nobody knows it.
pub fn fallback_defaults(
    current_dir: &Option<String>,
    log_dir: &str,
    os: &str,
    arch: &str,
) -> (r: Resolved)
    ensures
        r@ == fallback(
            match current_dir.deep_view() {
                Some(d) => d,
                None => "."@,
            },
            log_dir@,
            os@,
            arch@,
        ),
{
    let base_dir = match current_dir {
        Some(d) => d.clone(),
        None => ".".to_owned(),
    };
    Resolved {
        base_dir,
        listen: "::1".to_owned(),
        port: 8080,
        log_dir: log_dir.to_owned(),
        debug: false,
        fqdn: None,
        tls_enabled: false,
        directory_listing: false,
        mime_types: Table::new(),
        script_handlers: Table::new(),
        ssi_extensions: builtin_ssi_extensions(),
        security_headers: builtin_security_headers(false, ServerTokens::Full, os, arch),
        cors: Some(builtin_cors_headers()),
        proxy: ProxyLayer::default(),
        logging_access_format: "combined".to_owned(),
        logging_access_rotate: "daily".to_owned(),
        logging_access_keep: "30d".to_owned(),
        logging_error_format: "standard".to_owned(),
        logging_error_rotate: "daily".to_owned(),
        logging_error_keep: "30d".to_owned(),
        project_config_path: "".to_owned(),
    }
}

// ---------------------------------------------------------------------------
// Starting
// ---------------------------------------------------------------------------

/// Whether settings ask for HTTPS without a name for its certificate.
pub open spec fn lacks_name(o: ResolvedView) -> bool {
    o.tls_enabled && (o.fqdn is None || (o.fqdn->0).len() == 0)
}

/// What is wrong with settings that ask for HTTPS without a name.
pub const NO_NAME: &'static str =
    "tls.enabled is true but no --fqdn/fqdn was provided (required whenever TLS is on)";

/// Whether the server can start with its settings, and otherwise why not.
pub fn check_start(opts: &Resolved) -> (r: Result<(), String>)
    ensures
        match r {
            Ok(_) => !lacks_name(opts@),
            Err(e) => lacks_name(opts@) && e@ == NO_NAME@,
        },
{
    let named = match &opts.fqdn {
        Some(f) => !f.as_str().is_empty(),
        None => false,
    };
    if opts.tls_enabled && !named {
        Err(NO_NAME.to_owned())
    } else {
        Ok(())
    }
}

/// The address to listen on, with its port. An IPv6 address gets brackets.
pub open spec fn bind_text(listen: Seq<char>, port: u16) -> Seq<char> {
    (if listen.contains(':') && !starts_with(listen, "["@) {
        "["@ + listen + "]"@
    } else {
        listen
    }) + ":"@ + decimal(port as int)
}

/// The address to listen on, with its port.
pub fn format_bind_addr(listen: &str, port: u16) -> (r: String)
    ensures
        r@ == bind_text(listen@, port),
{
    let mut out = listen.to_owned();
    if contains_char(listen, ':') && !has_prefix(listen, "[") {
        out = "[".to_owned();
        out.append(listen);
        out.append("]");
    }
    out.append(":");
    out.append(decimal_of(port as u64).as_str());
    out
}

/// What the server says when it starts.
pub open spec fn banner(o: ResolvedView, base: Seq<char>) -> Seq<char> {
    "cashttpd "@ + VERSION@ + " listening on "@ + bind_text(o.listen, o.port) + " (base dir: "@
        + base + ", "@ + (if o.tls_enabled {
        "https"@
    } else {
        "http"@
    }) + ")"@
}

/// What the server says when it starts to serve a directory.
pub fn start_banner(opts: &Resolved, base_dir: &str) -> (r: String)
    ensures
        r@ == banner(opts@, base_dir@),
{
    let mut out = "cashttpd ".to_owned();
    out.append(VERSION);
    out.append(" listening on ");
    out.append(format_bind_addr(opts.listen.as_str(), opts.port).as_str());
    out.append(" (base dir: ");
    out.append(base_dir);
    out.append(", ");
    out.append(
        if opts.tls_enabled {
            "https"
        } else {
            "http"
        },
    );
    out.append(")");
    out
}

/// Text in a colour of the terminal.
pub fn in_color(text: &str, color: &str) -> (r: String)
    ensures
        r@ == "\x1b[38;5;"@ + color@ + "m"@ + text@ + "\x1b[0m"@,
{
    let mut out = "\x1b[38;5;".to_owned();
    out.append(color);
    out.append("m");
    out.append(text);
    out.append("\x1b[0m");
    out
}

/// What the server says when it stops.
pub fn stop_message(uptime: u64, requests: u64) -> (r: String)
    ensures
        r@ == "cashttpd: graceful shutdown complete after "@ + duration_text(uptime as int)
            + ", served "@ + grouped(decimal(requests as int)) + " requests"@,
{
    let mut out = "cashttpd: graceful shutdown complete after ".to_owned();
    out.append(duration(uptime).as_str());
    out.append(", served ");
    out.append(count(requests).as_str());
    out.append(" requests");
    out
}

} // verus!
