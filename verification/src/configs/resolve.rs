//! Settings as they come out of the command line, the environment and the two
//! configuration files: the earlier of these has the say over the later.

use vstd::prelude::*;

use crate::configs::headers::{
    builtin_security_headers, cors_of, default_headers, merge_header_overrides, resolve_cors,
    server_header, tokens_in, with_overrides, ServerTokens,
};
use crate::configs::yaml::{
    all_names_fit, holds_settings, is_comment, is_one_line, layer_in, lemma_null_is_silent,
    names_fit, parse_layer, under, Setting, SettingView, Yaml,
};
use crate::configs::{silent, Layer, LayerView, ProxyLayer, ProxyLayerView};
use crate::digits::{number16, parse_u16};
use crate::outside::{yaml_document, yaml_parse, yaml_plain, yaml_text, yaml_write};
use crate::paths::{join_path, under_dir};
use crate::table::Table;
use crate::text::{
    copy_option, copy_strings, has_prefix, lower, lowered, over, over_text, replace, replaced,
    starts_with, trim, trimmed,
};

verus! {

/// What the command line says.
pub struct CliOverrides {
    /// The directory whose files are served.
    pub base_dir: Option<String>,
    /// The address to listen on.
    pub listen: Option<String>,
    /// The port to listen on.
    pub port: Option<u16>,
    /// Where log files go.
    pub log_dir: Option<String>,
    /// Whether error pages tell what went wrong.
    pub debug: Option<bool>,
    /// The name that a certificate is for.
    pub fqdn: Option<String>,
    /// The configuration file of the project.
    pub config_path: Option<String>,
}

/// What the command line says.
pub struct CliView {
    pub base_dir: Option<Seq<char>>,
    pub listen: Option<Seq<char>>,
    pub port: Option<u16>,
    pub log_dir: Option<Seq<char>>,
    pub debug: Option<bool>,
    pub fqdn: Option<Seq<char>>,
    pub config_path: Option<Seq<char>>,
}

impl View for CliOverrides {
    type V = CliView;

    open spec fn view(&self) -> CliView {
        CliView {
            base_dir: self.base_dir.deep_view(),
            listen: self.listen.deep_view(),
            port: self.port,
            log_dir: self.log_dir.deep_view(),
            debug: self.debug,
            fqdn: self.fqdn.deep_view(),
            config_path: self.config_path.deep_view(),
        }
    }
}

/// A command line without options.
pub open spec fn no_options() -> CliView {
    CliView {
        base_dir: None,
        listen: None,
        port: None,
        log_dir: None,
        debug: None,
        fqdn: None,
        config_path: None,
    }
}

impl Default for CliOverrides {
    fn default() -> (r: CliOverrides)
        ensures
            r@ == no_options(),
    {
        CliOverrides {
            base_dir: None,
            listen: None,
            port: None,
            log_dir: None,
            debug: None,
            fqdn: None,
            config_path: None,
        }
    }
}

/// What the environment says: the variables that start with `CASHTTPD_`.
pub struct Environment {
    /// `CASHTTPD_BASE_DIR`.
    pub base_dir: Option<String>,
    /// `CASHTTPD_LISTEN`.
    pub listen: Option<String>,
    /// `CASHTTPD_PORT`.
    pub port: Option<String>,
    /// `CASHTTPD_LOG_DIR`.
    pub log_dir: Option<String>,
    /// `CASHTTPD_DEBUG`.
    pub debug: Option<String>,
    /// `CASHTTPD_FQDN`.
    pub fqdn: Option<String>,
    /// `CASHTTPD_TLS_ENABLED`.
    pub tls_enabled: Option<String>,
    /// `CASHTTPD_DIRECTORY_LISTING`.
    pub directory_listing: Option<String>,
    /// `CASHTTPD_SERVER_TOKENS`.
    pub server_tokens: Option<String>,
}

/// What the environment says.
pub struct EnvironmentView {
    pub base_dir: Option<Seq<char>>,
    pub listen: Option<Seq<char>>,
    pub port: Option<Seq<char>>,
    pub log_dir: Option<Seq<char>>,
    pub debug: Option<Seq<char>>,
    pub fqdn: Option<Seq<char>>,
    pub tls_enabled: Option<Seq<char>>,
    pub directory_listing: Option<Seq<char>>,
    pub server_tokens: Option<Seq<char>>,
}

impl View for Environment {
    type V = EnvironmentView;

    open spec fn view(&self) -> EnvironmentView {
        EnvironmentView {
            base_dir: self.base_dir.deep_view(),
            listen: self.listen.deep_view(),
            port: self.port.deep_view(),
            log_dir: self.log_dir.deep_view(),
            debug: self.debug.deep_view(),
            fqdn: self.fqdn.deep_view(),
            tls_enabled: self.tls_enabled.deep_view(),
            directory_listing: self.directory_listing.deep_view(),
            server_tokens: self.server_tokens.deep_view(),
        }
    }
}

impl Default for Environment {
    fn default() -> (r: Environment)
        ensures
            r@ == no_variables(),
    {
        Environment {
            base_dir: None,
            listen: None,
            port: None,
            log_dir: None,
            debug: None,
            fqdn: None,
            tls_enabled: None,
            directory_listing: None,
            server_tokens: None,
        }
    }
}

/// An environment that says nothing.
pub open spec fn no_variables() -> EnvironmentView {
    EnvironmentView {
        base_dir: None,
        listen: None,
        port: None,
        log_dir: None,
        debug: None,
        fqdn: None,
        tls_enabled: None,
        directory_listing: None,
        server_tokens: None,
    }
}

/// What the machine says.
pub struct Machine {
    /// Whether the IPv6 loopback address can be bound.
    pub v6_available: bool,
    /// The nanoseconds of the current second.
    pub nanos: u32,
    /// Where log files go by default.
    pub log_dir: String,
    /// The operating system.
    pub os: String,
    /// The architecture.
    pub arch: String,
    /// What the requested directory resolves to, if it is there.
    pub base_dir: Option<String>,
    /// What the directory that the project file names resolves to, if it is
    /// there.
    pub project_base_dir: Option<String>,
    /// What the directory that the global file names resolves to, if it is there.
    pub global_base_dir: Option<String>,
    /// The ports that were found to be in use.
    pub taken_ports: Vec<u16>,
}

/// What the machine says.
pub struct MachineView {
    pub v6_available: bool,
    pub nanos: u32,
    pub log_dir: Seq<char>,
    pub os: Seq<char>,
    pub arch: Seq<char>,
    pub base_dir: Option<Seq<char>>,
    pub project_base_dir: Option<Seq<char>>,
    pub global_base_dir: Option<Seq<char>>,
    pub taken_ports: Seq<u16>,
}

impl View for Machine {
    type V = MachineView;

    open spec fn view(&self) -> MachineView {
        MachineView {
            v6_available: self.v6_available,
            nanos: self.nanos,
            log_dir: self.log_dir@,
            os: self.os@,
            arch: self.arch@,
            base_dir: self.base_dir.deep_view(),
            project_base_dir: self.project_base_dir.deep_view(),
            global_base_dir: self.global_base_dir.deep_view(),
            taken_ports: self.taken_ports@,
        }
    }
}

/// The settings that the server runs with.
pub struct Resolved {
    /// The directory whose files are served.
    pub base_dir: String,
    /// The address to listen on.
    pub listen: String,
    /// The port to listen on.
    pub port: u16,
    /// Where log files go.
    pub log_dir: String,
    /// Whether error pages tell what went wrong.
    pub debug: bool,
    /// The name that a certificate is for.
    pub fqdn: Option<String>,
    /// Whether to serve HTTPS.
    pub tls_enabled: bool,
    /// Whether a directory without an index page is listed.
    pub directory_listing: bool,
    /// Media types by file extension.
    pub mime_types: Table<String>,
    /// Interpreters by file extension.
    pub script_handlers: Table<Option<String>>,
    /// Extensions of pages with server-side directives, each with its dot.
    pub ssi_extensions: Vec<String>,
    /// Headers of every response.
    pub security_headers: Table<String>,
    /// Headers for other origins, if there are any.
    pub cors: Option<Table<String>>,
    /// A development server to hand requests to.
    pub proxy: ProxyLayer,
    /// The format of the access log.
    pub logging_access_format: String,
    /// When a new access log is started.
    pub logging_access_rotate: String,
    /// How long old access logs stay.
    pub logging_access_keep: String,
    /// The format of the error log.
    pub logging_error_format: String,
    /// When a new error log is started.
    pub logging_error_rotate: String,
    /// How long old error logs stay.
    pub logging_error_keep: String,
    /// The configuration file of the project.
    pub project_config_path: String,
}

/// The settings that the server runs with.
#[verifier::ext_equal]
pub struct ResolvedView {
    pub base_dir: Seq<char>,
    pub listen: Seq<char>,
    pub port: u16,
    pub log_dir: Seq<char>,
    pub debug: bool,
    pub fqdn: Option<Seq<char>>,
    pub tls_enabled: bool,
    pub directory_listing: bool,
    pub mime_types: Map<Seq<char>, Seq<char>>,
    pub script_handlers: Map<Seq<char>, Option<Seq<char>>>,
    pub ssi_extensions: Seq<Seq<char>>,
    pub security_headers: Map<Seq<char>, Seq<char>>,
    pub cors: Option<Map<Seq<char>, Seq<char>>>,
    pub proxy: ProxyLayerView,
    pub logging_access_format: Seq<char>,
    pub logging_access_rotate: Seq<char>,
    pub logging_access_keep: Seq<char>,
    pub logging_error_format: Seq<char>,
    pub logging_error_rotate: Seq<char>,
    pub logging_error_keep: Seq<char>,
    pub project_config_path: Seq<char>,
}

impl View for Resolved {
    type V = ResolvedView;

    open spec fn view(&self) -> ResolvedView {
        ResolvedView {
            base_dir: self.base_dir@,
            listen: self.listen@,
            port: self.port,
            log_dir: self.log_dir@,
            debug: self.debug,
            fqdn: self.fqdn.deep_view(),
            tls_enabled: self.tls_enabled,
            directory_listing: self.directory_listing,
            mime_types: self.mime_types@,
            script_handlers: self.script_handlers@,
            ssi_extensions: self.ssi_extensions.deep_view(),
            security_headers: self.security_headers@,
            cors: match self.cors {
                Some(t) => Some(t@),
                None => None,
            },
            proxy: self.proxy@,
            logging_access_format: self.logging_access_format@,
            logging_access_rotate: self.logging_access_rotate@,
            logging_access_keep: self.logging_access_keep@,
            logging_error_format: self.logging_error_format@,
            logging_error_rotate: self.logging_error_rotate@,
            logging_error_keep: self.logging_error_keep@,
            project_config_path: self.project_config_path@,
        }
    }
}

impl Resolved {
    /// The same settings once more.
    pub fn copy(&self) -> (r: Resolved)
        ensures
            r@ == self@,
    {
        let cors = match &self.cors {
            Some(t) => Some(t.copy()),
            None => None,
        };
        let proxy = ProxyLayer {
            enabled: self.proxy.enabled,
            kind: copy_option(&self.proxy.kind),
            command: copy_option(&self.proxy.command),
            upstream: copy_option(&self.proxy.upstream),
            path_prefix: copy_option(&self.proxy.path_prefix),
        };
        Resolved {
            base_dir: self.base_dir.clone(),
            listen: self.listen.clone(),
            port: self.port,
            log_dir: self.log_dir.clone(),
            debug: self.debug,
            fqdn: copy_option(&self.fqdn),
            tls_enabled: self.tls_enabled,
            directory_listing: self.directory_listing,
            mime_types: self.mime_types.copy(),
            script_handlers: self.script_handlers.copy(),
            ssi_extensions: copy_strings(&self.ssi_extensions),
            security_headers: self.security_headers.copy(),
            cors,
            proxy,
            logging_access_format: self.logging_access_format.clone(),
            logging_access_rotate: self.logging_access_rotate.clone(),
            logging_access_keep: self.logging_access_keep.clone(),
            logging_error_format: self.logging_error_format.clone(),
            logging_error_rotate: self.logging_error_rotate.clone(),
            logging_error_keep: self.logging_error_keep.clone(),
            project_config_path: self.project_config_path.clone(),
        }
    }
}

// ---------------------------------------------------------------------------
// Single settings
// ---------------------------------------------------------------------------

/// A value, or a default where there is none.
pub open spec fn or_default<T>(a: Option<T>, d: T) -> T {
    match a {
        Some(v) => v,
        None => d,
    }
}

fn text_or(a: Option<String>, d: &str) -> (r: String)
    ensures
        r@ == or_default(a.deep_view(), d@),
{
    match a {
        Some(v) => v,
        None => d.to_owned(),
    }
}

fn flag_over(a: Option<bool>, b: Option<bool>) -> (r: Option<bool>)
    ensures
        r == over(a, b),
{
    if a.is_some() {
        a
    } else {
        b
    }
}

fn port_over(a: Option<u16>, b: Option<u16>) -> (r: Option<u16>)
    ensures
        r == over(a, b),
{
    if a.is_some() {
        a
    } else {
        b
    }
}

/// Whether a word of the environment means yes.
pub open spec fn is_yes(v: Seq<char>) -> bool {
    let w = lower(trim(v));
    w == "1"@ || w == "true"@ || w == "yes"@ || w == "on"@
}

/// What a variable says of a setting that is on or off.
pub open spec fn flag_in(v: Option<Seq<char>>) -> Option<bool> {
    match v {
        Some(w) => Some(is_yes(w)),
        None => None,
    }
}

/// What a variable says of a setting that is on or off.
pub fn pick_bool_env(v: &Option<String>) -> (r: Option<bool>)
    ensures
        r == flag_in(v.deep_view()),
{
    match v {
        Some(w) => {
            let t = trimmed(w.as_str());
            let l = lowered(t.as_str());
            Some(
                l.as_str().eq("1") || l.as_str().eq("true") || l.as_str().eq("yes")
                    || l.as_str().eq("on"),
            )
        },
        None => None,
    }
}

/// What a variable says of a port. What is not a port number says nothing.
pub open spec fn port_of_env(v: Option<Seq<char>>) -> Option<u16> {
    match v {
        Some(w) => number16(w),
        None => None,
    }
}

/// A port out of the nanoseconds of the clock.
pub open spec fn port_from(nanos: u32) -> u16 {
    (59000 + nanos % 1000) as u16
}

/// A port out of the nanoseconds of the clock.
pub fn random_port(nanos: u32) -> (r: u16)
    ensures
        r == port_from(nanos),
        59000 <= r < 60000,
{
    59000 + (nanos % 1000) as u16
}

/// The port that comes `k` ports after the one out of the clock, in a circle.
pub open spec fn port_after(nanos: u32, k: int) -> u16 {
    (59000 + (nanos as int + k) % 1000) as u16
}

/// The first port, from the one out of the clock on, that is not in use.
pub open spec fn free_port(nanos: u32, taken: Seq<u16>, k: int) -> Option<u16>
    decreases 1000 - k,
{
    if k >= 1000 {
        None
    } else if taken.contains(port_after(nanos, k)) {
        free_port(nanos, taken, k + 1)
    } else {
        Some(port_after(nanos, k))
    }
}

/// The first port, from the one out of the clock on, that is not among those that
/// were found to be in use.
pub fn unused_port(nanos: u32, taken: &Vec<u16>) -> (r: Option<u16>)
    ensures
        r == free_port(nanos, taken@, 0),
{
    let mut k: u32 = 0;
    while k < 1000
        invariant
            k <= 1000,
            free_port(nanos, taken@, 0) == free_port(nanos, taken@, k as int),
        decreases 1000 - k,
    {
        let p: u16 = 59000 + ((nanos as u64 + k as u64) % 1000) as u16;
        let mut used = false;
        let mut i: usize = 0;
        while i < taken.len()
            invariant
                i <= taken@.len(),
                used == taken@.take(i as int).contains(p),
            decreases taken@.len() - i,
        {
            assert(taken@.take(i + 1) =~= taken@.take(i as int).push(taken@[i as int]));
            if taken[i] == p {
                assert(taken@.take(i + 1)[i as int] == p);
                used = true;
            }
            proof {
                let before = taken@.take(i as int);
                if before.contains(p) {
                    let j = choose|j: int| 0 <= j < before.len() && before[j] == p;
                    assert(taken@.take(i + 1)[j] == p);
                }
            }
            i = i + 1;
        }
        assert(taken@.take(i as int) =~= taken@);
        assert(p == port_after(nanos, k as int));
        if !used {
            return Some(p);
        }
        k = k + 1;
    }
    None
}

/// The extensions of pages with server-side directives unless settings say
/// otherwise.
pub open spec fn default_ssi() -> Seq<Seq<char>> {
    seq![".shtml"@]
}

/// The extensions of pages with server-side directives unless settings say
/// otherwise.
pub fn builtin_ssi_extensions() -> (r: Vec<String>)
    ensures
        r.deep_view() == default_ssi(),
{
    let mut v: Vec<String> = Vec::new();
    v.push(".shtml".to_owned());
    assert(v.deep_view() =~= seq![".shtml"@]);
    v
}

/// An extension in lower case, with its dot.
pub open spec fn dotted(ext: Seq<char>) -> Seq<char> {
    let e = lower(trim(ext));
    if starts_with(e, "."@) {
        e
    } else {
        "."@ + e
    }
}

/// Extensions together with those of a list, none twice.
pub open spec fn joined_extensions(known: Seq<Seq<char>>, list: Seq<Seq<char>>) -> Seq<Seq<char>>
    decreases list.len(),
{
    if list.len() == 0 {
        known
    } else {
        let before = joined_extensions(known, list.drop_last());
        if before.contains(dotted(list.last())) {
            before
        } else {
            before.push(dotted(list.last()))
        }
    }
}

/// Extensions after what a layer says of them: a list adds to them, and an empty
/// list takes all of them away.
pub open spec fn ssi_layered(known: Seq<Seq<char>>, layer: Option<Seq<Seq<char>>>) -> Seq<
    Seq<char>,
> {
    match layer {
        Some(l) => if l.len() == 0 {
            Seq::empty()
        } else {
            joined_extensions(known, l)
        },
        None => known,
    }
}

fn holds(list: &Vec<String>, s: &str) -> (r: bool)
    ensures
        r == list.deep_view().contains(s@),
{
    let n: usize = list.len();
    let mut i: usize = 0;
    while i < n
        invariant
            i <= n,
            n == list@.len(),
            forall|j: int| 0 <= j < i ==> #[trigger] list.deep_view()[j] != s@,
        decreases n - i,
    {
        assert(list.deep_view()[i as int] == list@[i as int]@);
        if list[i].as_str().eq(s) {
            return true;
        }
        i = i + 1;
    }
    false
}

/// Extensions after what a layer says of them.
pub fn layer_ssi(known: Vec<String>, layer: &Option<Vec<String>>) -> (r: Vec<String>)
    ensures
        r.deep_view() == ssi_layered(known.deep_view(), layer.deep_view()),
{
    match layer {
        None => known,
        Some(list) => {
            let n: usize = list.len();
            if n == 0 {
                let none: Vec<String> = Vec::new();
                assert(none.deep_view() =~= Seq::<Seq<char>>::empty());
                return none;
            }
            let ghost all = list.deep_view();
            let ghost start = known.deep_view();
            let mut out = known;
            let mut i: usize = 0;
            assert(all.take(0) =~= Seq::empty());
            while i < n
                invariant
                    i <= n,
                    n == list@.len(),
                    all == list.deep_view(),
                    out.deep_view() == joined_extensions(start, all.take(i as int)),
                decreases n - i,
            {
                assert(all.take(i + 1).drop_last() =~= all.take(i as int));
                assert(all.take(i + 1).last() == list@[i as int]@);
                let t = trimmed(list[i].as_str());
                let low = lowered(t.as_str());
                let ext = if has_prefix(low.as_str(), ".") {
                    low
                } else {
                    let mut d = ".".to_owned();
                    d.append(low.as_str());
                    d
                };
                if !holds(&out, ext.as_str()) {
                    let ghost before = out.deep_view();
                    out.push(ext);
                    assert(out.deep_view() =~= before.push(ext@));
                }
                i = i + 1;
            }
            assert(all.take(n as int) =~= all);
            out
        },
    }
}

/// Interpreters by file extension unless settings say otherwise. `exec` stands
/// for a file that runs by itself.
pub open spec fn default_handlers() -> Map<Seq<char>, Option<Seq<char>>> {
    Map::<Seq<char>, Option<Seq<char>>>::empty().insert("php"@, Some("php-cgi"@)).insert(
        "py"@,
        Some("python3"@),
    ).insert("pl"@, Some("perl"@)).insert("lua"@, Some("lua"@)).insert("rb"@, Some("ruby"@)).insert(
        "cgi"@,
        Some("exec"@),
    )
}

/// Interpreters by file extension unless settings say otherwise.
pub fn builtin_script_handlers() -> (r: Table<Option<String>>)
    ensures
        r@ == default_handlers(),
{
    let mut m: Table<Option<String>> = Table::new();
    m.insert("php", Some("php-cgi".to_owned()));
    m.insert("py", Some("python3".to_owned()));
    m.insert("pl", Some("perl".to_owned()));
    m.insert("lua", Some("lua".to_owned()));
    m.insert("rb", Some("ruby".to_owned()));
    m.insert("cgi", Some("exec".to_owned()));
    m
}

/// What two files say of a development server, the first over the second.
pub open spec fn proxy_over(project: ProxyLayerView, global: ProxyLayerView) -> ProxyLayerView {
    ProxyLayerView {
        enabled: over(project.enabled, global.enabled),
        kind: over(project.kind, global.kind),
        command: over(project.command, global.command),
        upstream: over(project.upstream, global.upstream),
        path_prefix: over(project.path_prefix, global.path_prefix),
    }
}

fn merge_proxy(project: &ProxyLayer, global: &ProxyLayer) -> (r: ProxyLayer)
    ensures
        r@ == proxy_over(project@, global@),
{
    ProxyLayer {
        enabled: flag_over(project.enabled, global.enabled),
        kind: over_text(&project.kind, &global.kind),
        command: over_text(&project.command, &global.command),
        upstream: over_text(&project.upstream, &global.upstream),
        path_prefix: over_text(&project.path_prefix, &global.path_prefix),
    }
}

// ---------------------------------------------------------------------------
// Files
// ---------------------------------------------------------------------------

/// The name of a project: the path of its directory with `_` for `/`, and a word
/// of its own for no path at all.
pub open spec fn name_of(path: Seq<char>) -> Seq<char> {
    if path.len() == 0 {
        "root"@
    } else {
        replace(replace(path, '\\', "/"@), '/', "_"@)
    }
}

/// The name of the project in a directory, which resolves to `canonical` if it
/// is there.
pub fn derived_name(base_dir: &str, canonical: &Option<String>) -> (r: String)
    ensures
        r@ == name_of(or_default(canonical.deep_view(), base_dir@)),
{
    let path = text_or(copy_option(canonical), base_dir);
    if path.as_str().is_empty() {
        "root".to_owned()
    } else {
        let slashed = replaced(path.as_str(), '\\', "/");
        replaced(slashed.as_str(), '/', "_")
    }
}

/// The directory that the command line or the environment asks for.
pub open spec fn requested_dir(cli: Option<Seq<char>>, env: Option<Seq<char>>) -> Seq<char> {
    or_default(over(cli, env), "."@)
}

/// The directory that the command line or the environment asks for.
pub fn requested_base_dir(cli: &CliOverrides, env: &Environment) -> (r: String)
    ensures
        r@ == requested_dir(cli@.base_dir, env@.base_dir),
{
    text_or(over_text(&cli.base_dir, &env.base_dir), ".")
}

/// The configuration file of the project in a directory.
pub open spec fn project_file(
    config_path: Option<Seq<char>>,
    config_dir: Seq<char>,
    dir: Seq<char>,
) -> Seq<char> {
    or_default(config_path, under_dir(under_dir(config_dir, "projects"@), name_of(dir) + ".yaml"@))
}

fn project_path(
    config_path: &Option<String>,
    config_dir: &str,
    base_dir: &str,
    canonical: &Option<String>,
) -> (r: String)
    ensures
        r@ == project_file(
            config_path.deep_view(),
            config_dir@,
            or_default(canonical.deep_view(), base_dir@),
        ),
{
    match config_path {
        Some(p) => p.clone(),
        None => {
            let projects = join_path(config_dir, "projects");
            let mut file = derived_name(base_dir, canonical);
            file.append(".yaml");
            join_path(projects.as_str(), file.as_str())
        },
    }
}

/// The two configuration files: the global one, and that of the project in the
/// requested directory, which resolves to `canonical` if it is there.
pub open spec fn config_files(
    cli: CliView,
    env: EnvironmentView,
    config_dir: Seq<char>,
    canonical: Option<Seq<char>>,
) -> (Seq<char>, Seq<char>) {
    (
        under_dir(config_dir, "config.yaml"@),
        project_file(
            cli.config_path,
            config_dir,
            or_default(canonical, requested_dir(cli.base_dir, env.base_dir)),
        ),
    )
}

/// The two configuration files: the global one, and that of the project in the
/// requested directory, which resolves to `canonical` if it is there.
pub fn config_paths(
    cli: &CliOverrides,
    env: &Environment,
    config_dir: &str,
    canonical: &Option<String>,
) -> (r: (String, String))
    ensures
        (r.0@, r.1@) == config_files(cli@, env@, config_dir@, canonical.deep_view()),
{
    let base_dir = requested_base_dir(cli, env);
    (
        join_path(config_dir, "config.yaml"),
        project_path(&cli.config_path, config_dir, base_dir.as_str(), canonical),
    )
}

/// The two files that a test of the configuration reads. Only the command line
/// says which directory that is about.
pub open spec fn tested_files(
    cli: CliView,
    config_dir: Seq<char>,
    canonical: Option<Seq<char>>,
) -> (Seq<char>, Seq<char>) {
    (
        under_dir(config_dir, "config.yaml"@),
        project_file(
            cli.config_path,
            config_dir,
            or_default(canonical, or_default(cli.base_dir, "."@)),
        ),
    )
}

/// The two files that a test of the configuration reads. Only the command line
/// says which directory that is about.
pub fn tested_paths(cli: &CliOverrides, config_dir: &str, canonical: &Option<String>) -> (r: (
    String,
    String,
))
    ensures
        (r.0@, r.1@) == tested_files(cli@, config_dir@, canonical.deep_view()),
{
    let base_dir = text_or(copy_option(&cli.base_dir), ".");
    (
        join_path(config_dir, "config.yaml"),
        project_path(&cli.config_path, config_dir, base_dir.as_str(), canonical),
    )
}

/// What is found where a configuration file may be.
pub enum FileText {
    /// There is no file.
    Missing,
    /// There is a file with this text.
    Text(String),
    /// There is a file that cannot be read as text.
    Unreadable(String),
}

/// What is found where a configuration file may be.
pub enum FileTextView {
    Missing,
    Text(Seq<char>),
    Unreadable(Seq<char>),
}

impl View for FileText {
    type V = FileTextView;

    open spec fn view(&self) -> FileTextView {
        match self {
            FileText::Missing => FileTextView::Missing,
            FileText::Text(t) => FileTextView::Text(t@),
            FileText::Unreadable(e) => FileTextView::Unreadable(e@),
        }
    }
}

/// Whether there is no configuration file, or one that holds nothing but a comment.
pub open spec fn is_silent(found: FileTextView) -> bool {
    match found {
        FileTextView::Missing => true,
        FileTextView::Text(t) => is_comment(t),
        FileTextView::Unreadable(_) => false,
    }
}

/// What a configuration file says, or what is wrong with it.
pub open spec fn layer_of_file(path: Seq<char>, found: FileTextView) -> Result<
    LayerView,
    Seq<char>,
> {
    match found {
        FileTextView::Missing => Ok(silent()),
        FileTextView::Unreadable(e) => Err(e),
        FileTextView::Text(t) => if trim(t).len() == 0 {
            Ok(silent())
        } else {
            match yaml_document(t) {
                Ok(y) => Ok(layer_in(y)),
                Err(e) => Err(path + ": "@ + e),
            }
        },
    }
}

/// What a configuration file says, or what is wrong with it.
pub fn read_layer(path: &str, found: &FileText) -> (r: Result<Layer, String>)
    ensures
        match r {
            Ok(l) => layer_of_file(path@, found@) == Ok::<LayerView, Seq<char>>(l@),
            Err(e) => layer_of_file(path@, found@) == Err::<LayerView, Seq<char>>(e@),
        },
        is_silent(found@) ==> (r matches Ok(l) && l@ == silent()),
{
    match found {
        FileText::Missing => Ok(Layer::default()),
        FileText::Unreadable(e) => Err(e.clone()),
        FileText::Text(t) => {
            let body = trimmed(t.as_str());
            if body.as_str().is_empty() {
                return Ok(Layer::default());
            }
            proof {
                lemma_null_is_silent();
            }
            match yaml_parse(t.as_str()) {
                Ok(v) => {
                    let y = yaml_plain(&v);
                    Ok(parse_layer(&y))
                },
                Err(e) => {
                    let mut message = path.to_owned();
                    message.append(": ");
                    message.append(e.as_str());
                    Err(message)
                },
            }
        },
    }
}

/// What the two configuration files say, the global one first, or what is wrong
/// with the first of them that cannot be read.
pub open spec fn layers_of(
    global_path: Seq<char>,
    global: FileTextView,
    project_path: Seq<char>,
    project: FileTextView,
) -> Result<(LayerView, LayerView), Seq<char>> {
    match layer_of_file(global_path, global) {
        Err(e) => Err(e),
        Ok(g) => match layer_of_file(project_path, project) {
            Err(e) => Err(e),
            Ok(p) => Ok((g, p)),
        },
    }
}

/// What the two configuration files say, the global one first, or what is wrong
/// with the first of them that cannot be read.
pub fn read_layers(
    global_path: &str,
    global: &FileText,
    project_path: &str,
    project: &FileText,
) -> (r: Result<(Layer, Layer), String>)
    ensures
        match layers_of(global_path@, global@, project_path@, project@) {
            Ok((g, p)) => r matches Ok(l) && l.0@ == g && l.1@ == p,
            Err(e) => r matches Err(m) && m@ == e,
        },
        is_silent(global@) ==> layer_of_file(global_path@, global@) == Ok::<LayerView, Seq<char>>(
            silent(),
        ),
{
    let g = match read_layer(global_path, global) {
        Ok(g) => g,
        Err(e) => {
            return Err(e);
        },
    };
    match read_layer(project_path, project) {
        Ok(p) => Ok((g, p)),
        Err(e) => Err(e),
    }
}

/// Whether a configuration file cannot be read: not as text, or not as YAML.
pub open spec fn is_broken(found: FileTextView) -> bool {
    match found {
        FileTextView::Missing => false,
        FileTextView::Unreadable(_) => true,
        FileTextView::Text(t) => trim(t).len() > 0 && yaml_document(t) is Err,
    }
}

/// Whether the two configuration files can be read, and otherwise what is wrong
/// with the first of them that cannot.
pub fn validate(
    global_path: &str,
    global: &FileText,
    project_path: &str,
    project: &FileText,
) -> (r: Result<(), String>)
    ensures
        r is Ok == (!is_broken(global@) && !is_broken(project@)),
        r matches Err(e) ==> Err::<LayerView, Seq<char>>(e@) == (if is_broken(global@) {
            layer_of_file(global_path@, global@)
        } else {
            layer_of_file(project_path@, project@)
        }),
{
    match read_layer(global_path, global) {
        Ok(_) => (),
        Err(e) => {
            return Err(e);
        },
    }
    match read_layer(project_path, project) {
        Ok(_) => Ok(()),
        Err(e) => Err(e),
    }
}

// ---------------------------------------------------------------------------
// All settings
// ---------------------------------------------------------------------------

/// The directory whose files are served: the requested one, or, where none was
/// requested, the one that the project file names, or else the global file.
pub open spec fn served_dir(
    cli: CliView,
    env: EnvironmentView,
    global: LayerView,
    project: LayerView,
    machine: MachineView,
) -> Seq<char> {
    let requested = cli.base_dir is Some || env.base_dir is Some;
    if !requested && project.base_dir is Some {
        or_default(machine.project_base_dir, project.base_dir->0)
    } else if !requested && global.base_dir is Some {
        or_default(machine.global_base_dir, global.base_dir->0)
    } else {
        or_default(machine.base_dir, requested_dir(cli.base_dir, env.base_dir))
    }
}

/// The address that the server listens on.
pub open spec fn listens_on(
    cli: CliView,
    env: EnvironmentView,
    global: LayerView,
    project: LayerView,
    v6_available: bool,
) -> Seq<char> {
    or_default(
        over(cli.listen, over(env.listen, over(project.listen, global.listen))),
        if v6_available {
            "::1"@
        } else {
            "127.0.0.1"@
        },
    )
}

/// The port that some setting names.
pub open spec fn port_set(
    cli: CliView,
    env: EnvironmentView,
    global: LayerView,
    project: LayerView,
) -> Option<u16> {
    over(cli.port, over(port_of_env(env.port), over(project.port, global.port)))
}

/// Whether HTTPS is served.
pub open spec fn tls_of(env: EnvironmentView, global: LayerView, project: LayerView) -> bool {
    or_default(over(flag_in(env.tls_enabled), over(project.tls_enabled, global.tls_enabled)), false)
}

/// How much the `Server` header tells.
pub open spec fn tokens_of(
    env: EnvironmentView,
    global: LayerView,
    project: LayerView,
) -> ServerTokens {
    match over(env.server_tokens, over(project.server_tokens, global.server_tokens)) {
        Some(v) => tokens_in(v),
        None => ServerTokens::Full,
    }
}

/// The settings that the server runs with.
pub open spec fn resolved(
    cli: CliView,
    env: EnvironmentView,
    global: LayerView,
    project: LayerView,
    machine: MachineView,
    project_path: Seq<char>,
) -> ResolvedView {
    ResolvedView {
        base_dir: served_dir(cli, env, global, project, machine),
        listen: listens_on(cli, env, global, project, machine.v6_available),
        port: or_default(
            port_set(cli, env, global, project),
            or_default(
                free_port(machine.nanos, machine.taken_ports, 0),
                port_from(machine.nanos),
            ),
        ),
        log_dir: or_default(
            over(cli.log_dir, over(env.log_dir, over(project.log_dir, global.log_dir))),
            machine.log_dir,
        ),
        debug: or_default(
            over(cli.debug, over(flag_in(env.debug), over(project.debug, global.debug))),
            false,
        ),
        fqdn: over(cli.fqdn, over(env.fqdn, over(project.fqdn, global.fqdn))),
        tls_enabled: tls_of(env, global, project),
        directory_listing: or_default(
            over(
                flag_in(env.directory_listing),
                over(project.directory_listing, global.directory_listing),
            ),
            false,
        ),
        mime_types: global.mime_types.union_prefer_right(project.mime_types),
        script_handlers: default_handlers().union_prefer_right(
            global.script_handlers,
        ).union_prefer_right(project.script_handlers),
        ssi_extensions: ssi_layered(
            ssi_layered(default_ssi(), global.ssi_extensions),
            project.ssi_extensions,
        ),
        security_headers: with_overrides(
            with_overrides(
                default_headers(
                    tls_of(env, global, project),
                    server_header(tokens_of(env, global, project), machine.os, machine.arch),
                ),
                global.security_headers,
            ),
            project.security_headers,
        ),
        cors: cors_of(global.cors, project.cors),
        proxy: proxy_over(project.proxy, global.proxy),
        logging_access_format: or_default(
            over(project.logging_access.format, global.logging_access.format),
            "combined"@,
        ),
        logging_access_rotate: or_default(
            over(project.logging_access.rotate, global.logging_access.rotate),
            "daily"@,
        ),
        logging_access_keep: or_default(
            over(project.logging_access.keep, global.logging_access.keep),
            "30d"@,
        ),
        logging_error_format: or_default(
            over(project.logging_error.format, global.logging_error.format),
            "standard"@,
        ),
        logging_error_rotate: or_default(
            over(project.logging_error.rotate, global.logging_error.rotate),
            "daily"@,
        ),
        logging_error_keep: or_default(
            over(project.logging_error.keep, global.logging_error.keep),
            "30d"@,
        ),
        project_config_path: project_path,
    }
}

fn four_texts(
    a: &Option<String>,
    b: &Option<String>,
    c: &Option<String>,
    d: &Option<String>,
) -> (r: Option<String>)
    ensures
        r.deep_view() == over(
            a.deep_view(),
            over(b.deep_view(), over(c.deep_view(), d.deep_view())),
        ),
{
    let low = over_text(c, d);
    let mid = over_text(b, &low);
    over_text(a, &mid)
}

/// The address that the server listens on.
pub fn listen_address(
    cli: &CliOverrides,
    env: &Environment,
    global: &Layer,
    project: &Layer,
    v6_available: bool,
) -> (r: String)
    ensures
        r@ == listens_on(cli@, env@, global@, project@, v6_available),
{
    let loopback = if v6_available {
        "::1"
    } else {
        "127.0.0.1"
    };
    text_or(four_texts(&cli.listen, &env.listen, &project.listen, &global.listen), loopback)
}

/// The port that some setting names.
pub fn set_port(cli: &CliOverrides, env: &Environment, global: &Layer, project: &Layer) -> (r:
    Option<u16>)
    ensures
        r == port_set(cli@, env@, global@, project@),
{
    let env_port: Option<u16> = match &env.port {
        Some(v) => parse_u16(v.as_str()),
        None => None,
    };
    port_over(cli.port, port_over(env_port, port_over(project.port, global.port)))
}

/// The settings that the server runs with.
pub fn load(
    cli: &CliOverrides,
    env: &Environment,
    global: &Layer,
    project: &Layer,
    machine: &Machine,
    project_path: &str,
) -> (r: Resolved)
    ensures
        r@ == resolved(cli@, env@, global@, project@, machine@, project_path@),
{
    let requested = cli.base_dir.is_some() || env.base_dir.is_some();
    let base_dir = match (&project.base_dir, &global.base_dir) {
        (Some(p), _) if !requested => text_or(copy_option(&machine.project_base_dir), p.as_str()),
        (_, Some(g)) if !requested => text_or(copy_option(&machine.global_base_dir), g.as_str()),
        _ => {
            let asked = requested_base_dir(cli, env);
            text_or(copy_option(&machine.base_dir), asked.as_str())
        },
    };
    let listen = listen_address(cli, env, global, project, machine.v6_available);
    let port: u16 = match set_port(cli, env, global, project) {
        Some(p) => p,
        None => match unused_port(machine.nanos, &machine.taken_ports) {
            Some(p) => p,
            None => random_port(machine.nanos),
        },
    };
    let log_dir = text_or(
        four_texts(&cli.log_dir, &env.log_dir, &project.log_dir, &global.log_dir),
        machine.log_dir.as_str(),
    );
    let debug = flag_over(
        cli.debug,
        flag_over(pick_bool_env(&env.debug), flag_over(project.debug, global.debug)),
    );
    let fqdn = four_texts(&cli.fqdn, &env.fqdn, &project.fqdn, &global.fqdn);
    let tls = flag_over(
        pick_bool_env(&env.tls_enabled),
        flag_over(project.tls_enabled, global.tls_enabled),
    );
    let tls_enabled = match tls {
        Some(b) => b,
        None => false,
    };
    let listing = flag_over(
        pick_bool_env(&env.directory_listing),
        flag_over(project.directory_listing, global.directory_listing),
    );
    let mut mime_types = global.mime_types.copy();
    mime_types.extend_from(&project.mime_types);
    let mut script_handlers = builtin_script_handlers();
    script_handlers.extend_from(&global.script_handlers);
    script_handlers.extend_from(&project.script_handlers);
    let ssi_extensions = layer_ssi(
        layer_ssi(builtin_ssi_extensions(), &global.ssi_extensions),
        &project.ssi_extensions,
    );
    let low_tokens = over_text(&project.server_tokens, &global.server_tokens);
    let tokens = match over_text(&env.server_tokens, &low_tokens) {
        Some(v) => ServerTokens::parse(v.as_str()),
        None => ServerTokens::Full,
    };
    let mut security_headers = builtin_security_headers(
        tls_enabled,
        tokens,
        machine.os.as_str(),
        machine.arch.as_str(),
    );
    merge_header_overrides(&mut security_headers, &global.security_headers);
    merge_header_overrides(&mut security_headers, &project.security_headers);
    let access = &project.logging_access;
    let error = &project.logging_error;
    Resolved {
        base_dir,
        listen,
        port,
        log_dir,
        debug: match debug {
            Some(b) => b,
            None => false,
        },
        fqdn,
        tls_enabled,
        directory_listing: match listing {
            Some(b) => b,
            None => false,
        },
        mime_types,
        script_handlers,
        ssi_extensions,
        security_headers,
        cors: resolve_cors(&global.cors, &project.cors),
        proxy: merge_proxy(&project.proxy, &global.proxy),
        logging_access_format: text_or(
            over_text(&access.format, &global.logging_access.format),
            "combined",
        ),
        logging_access_rotate: text_or(
            over_text(&access.rotate, &global.logging_access.rotate),
            "daily",
        ),
        logging_access_keep: text_or(over_text(&access.keep, &global.logging_access.keep), "30d"),
        logging_error_format: text_or(
            over_text(&error.format, &global.logging_error.format),
            "standard",
        ),
        logging_error_rotate: text_or(
            over_text(&error.rotate, &global.logging_error.rotate),
            "daily",
        ),
        logging_error_keep: text_or(over_text(&error.keep, &global.logging_error.keep), "30d"),
        project_config_path: project_path.to_owned(),
    }
}

// ---------------------------------------------------------------------------
// The file of a new project
// ---------------------------------------------------------------------------

/// The settings that the file of a new project holds.
pub open spec fn first_settings(r: ResolvedView) -> Seq<(Seq<char>, SettingView)> {
    let head = seq![
        ("base_dir"@, SettingView::Text(r.base_dir)),
        ("listen"@, SettingView::Text(r.listen)),
        ("port"@, SettingView::Number(r.port as u64)),
        ("log_dir"@, SettingView::Text(r.log_dir)),
        ("debug"@, SettingView::Flag(r.debug)),
    ];
    let named = match r.fqdn {
        Some(f) => head.push(("fqdn"@, SettingView::Text(f))),
        None => head,
    };
    named.push(("tls"@, SettingView::Flags(seq![("enabled"@, r.tls_enabled)]))).push(
        ("directory_listing"@, SettingView::Flag(r.directory_listing)),
    )
}

fn put(list: &mut Vec<(String, Setting)>, name: &str, value: Setting)
    ensures
        final(list).deep_view() == old(list).deep_view().push((name@, value.deep_view())),
{
    let ghost before = list.deep_view();
    list.push((name.to_owned(), value));
    assert(list.deep_view() =~= before.push((name@, value.deep_view())));
}

/// The settings that the file of a new project holds.
pub fn autogenerated(resolved: &Resolved) -> (r: Vec<(String, Setting)>)
    ensures
        r.deep_view() == first_settings(resolved@),
{
    let mut list: Vec<(String, Setting)> = Vec::new();
    assert(list.deep_view() =~= Seq::<(Seq<char>, SettingView)>::empty());
    put(&mut list, "base_dir", Setting::Text(resolved.base_dir.clone()));
    put(&mut list, "listen", Setting::Text(resolved.listen.clone()));
    put(&mut list, "port", Setting::Number(resolved.port as u64));
    put(&mut list, "log_dir", Setting::Text(resolved.log_dir.clone()));
    put(&mut list, "debug", Setting::Flag(resolved.debug));
    if let Some(f) = &resolved.fqdn {
        put(&mut list, "fqdn", Setting::Text(f.clone()));
    }
    let mut tls: Vec<(String, bool)> = Vec::new();
    tls.push(("enabled".to_owned(), resolved.tls_enabled));
    assert(tls.deep_view() =~= seq![("enabled"@, resolved.tls_enabled)]);
    put(&mut list, "tls", Setting::Flags(tls));
    put(&mut list, "directory_listing", Setting::Flag(resolved.directory_listing));
    list
}

/// What the file of a new project says of every setting.
pub open spec fn first_layer(r: ResolvedView) -> LayerView {
    LayerView {
        base_dir: Some(r.base_dir),
        listen: Some(r.listen),
        port: Some(r.port),
        log_dir: Some(r.log_dir),
        debug: Some(r.debug),
        fqdn: r.fqdn,
        tls_enabled: Some(r.tls_enabled),
        directory_listing: Some(r.directory_listing),
        ..silent()
    }
}

/// The names in the file of a new project, at their places.
proof fn lemma_first_names(r: ResolvedView)
    ensures
        ({
            let e = first_settings(r);
            let n = if r.fqdn is Some {
                6int
            } else {
                5
            };
            &&& e.len() == n + 2
            &&& e[0] == ("base_dir"@, SettingView::Text(r.base_dir))
            &&& e[1] == ("listen"@, SettingView::Text(r.listen))
            &&& e[2] == ("port"@, SettingView::Number(r.port as u64))
            &&& e[3] == ("log_dir"@, SettingView::Text(r.log_dir))
            &&& e[4] == ("debug"@, SettingView::Flag(r.debug))
            &&& r.fqdn is Some ==> e[5] == ("fqdn"@, SettingView::Text(r.fqdn->0))
            &&& e[n] == ("tls"@, SettingView::Flags(seq![("enabled"@, r.tls_enabled)]))
            &&& e[n + 1] == ("directory_listing"@, SettingView::Flag(r.directory_listing))
        }),
        "base_dir"@.len() == 8,
        "listen"@.len() == 6,
        "port"@.len() == 4,
        "log_dir"@.len() == 7,
        "debug"@.len() == 5,
        "fqdn"@.len() == 4,
        "tls"@.len() == 3,
        "directory_listing"@.len() == 17,
        "port"@[0] == 'p',
        "fqdn"@[0] == 'f',
        "debug"@[0] == 'd',
        "log_dir"@[3] == '_',
{
    reveal_strlit("base_dir");
    reveal_strlit("listen");
    reveal_strlit("port");
    reveal_strlit("log_dir");
    reveal_strlit("debug");
    reveal_strlit("fqdn");
    reveal_strlit("tls");
    reveal_strlit("directory_listing");
}

proof fn lemma_first_names_fit(r: ResolvedView)
    ensures
        all_names_fit(first_settings(r)),
{
    lemma_first_names(r);
    let e = first_settings(r);
    assert forall|i: int| 0 <= i < e.len() implies is_one_line((#[trigger] e[i]).0) && names_fit(
        e[i].1,
    ) by {
        reveal_strlit("base_dir");
        reveal_strlit("listen");
        reveal_strlit("port");
        reveal_strlit("log_dir");
        reveal_strlit("debug");
        reveal_strlit("fqdn");
        reveal_strlit("tls");
        reveal_strlit("directory_listing");
        reveal_strlit("enabled");
    }
    assert forall|i: int, j: int| 0 <= i < j < e.len() implies #[trigger] e[i].0
        != #[trigger] e[j].0 by {
        assert(e[i].0.len() == e[j].0.len() ==> e[i].0[0] != e[j].0[0]);
    }
}

/// A name that is none of those in the file of a new project is not found in it.
proof fn lemma_not_first(y: Yaml, r: ResolvedView, k: Seq<char>)
    requires
        holds_settings(y, first_settings(r)),
        k.len() >= 4,
        k.len() != 8 && k.len() != 6 && k.len() != 17,
        k.len() == 4 ==> k[0] != 'p' && (r.fqdn is Some ==> k[0] != 'f'),
        k.len() == 5 ==> k[0] != 'd',
        k.len() == 7 ==> k[3] != '_',
    ensures
        under(y, k) is None,
{
    lemma_first_names(r);
    let e = first_settings(r);
    assert forall|i: int| 0 <= i < e.len() implies (#[trigger] e[i]).0 != k by {}
}

proof fn lemma_first_layer(y: Yaml, r: ResolvedView)
    requires
        holds_settings(y, first_settings(r)),
    ensures
        layer_in(y) == first_layer(r),
{
    lemma_first_names(r);
    let e = first_settings(r);
    let n = if r.fqdn is Some {
        6int
    } else {
        5
    };
    let flags = seq![("enabled"@, r.tls_enabled)];
    assert(e[n].0 == "tls"@ && flags[0].0 == "enabled"@);
    assert(e[n + 1].0 == "directory_listing"@);
    assert(e[0].0 == "base_dir"@ && e[1].0 == "listen"@ && e[2].0 == "port"@);
    assert(e[3].0 == "log_dir"@ && e[4].0 == "debug"@);
    reveal_strlit("mime_types");
    reveal_strlit("script_handlers");
    reveal_strlit("ssi_extensions");
    reveal_strlit("security_headers");
    reveal_strlit("server_tokens");
    reveal_strlit("cors");
    reveal_strlit("proxy");
    reveal_strlit("logging");
    lemma_not_first(y, r, "mime_types"@);
    lemma_not_first(y, r, "script_handlers"@);
    lemma_not_first(y, r, "ssi_extensions"@);
    lemma_not_first(y, r, "security_headers"@);
    lemma_not_first(y, r, "server_tokens"@);
    lemma_not_first(y, r, "cors"@);
    lemma_not_first(y, r, "proxy"@);
    lemma_not_first(y, r, "logging"@);
    if r.fqdn is None {
        lemma_not_first(y, r, "fqdn"@);
    } else {
        assert(e[5].0 == "fqdn"@);
    }
}

/// The text of the file of a new project, which says, when it is read, what was
/// written.
pub fn autogenerated_yaml(resolved: &Resolved) -> (r: String)
    ensures
        r@ == or_default(yaml_text(first_settings(resolved@)), ""@),
        forall|path: Seq<char>| #[trigger]
            layer_of_file(path, FileTextView::Text(r@)) == Ok::<LayerView, Seq<char>>(
                first_layer(resolved@),
            ),
{
    let list = autogenerated(resolved);
    let text = yaml_write(&list);
    proof {
        lemma_first_names_fit(resolved@);
        lemma_first_layer(yaml_document(text->0@)->Ok_0, resolved@);
    }
    text_or(text, "")
}

/// What the global file holds at first: a comment.
pub const GLOBAL_HEADER: &'static str = "# cashttpd global config\n";

/// What is written where a configuration file may be, if a first start may write: a
/// text where there is no file.
pub open spec fn first_text(autogenerate: bool, found: FileTextView, text: Seq<char>) -> Option<
    Seq<char>,
> {
    if autogenerate && found is Missing {
        Some(text)
    } else {
        None
    }
}

/// What is found where a configuration file may be, after it may have been written.
pub open spec fn found_after(found: FileTextView, written: Option<Seq<char>>) -> FileTextView {
    match written {
        Some(t) => FileTextView::Text(t),
        None => found,
    }
}

/// What is to be written to the global file, if anything.
pub fn first_global_file(autogenerate: bool, found: &FileText) -> (r: Option<String>)
    ensures
        r.deep_view() == first_text(autogenerate, found@, GLOBAL_HEADER@),
        is_silent(FileTextView::Text(GLOBAL_HEADER@)),
{
    proof {
        reveal_strlit("# cashttpd global config\n");
    }
    match found {
        FileText::Missing => if autogenerate {
            Some(GLOBAL_HEADER.to_owned())
        } else {
            None
        },
        _ => None,
    }
}

/// What is to be written to the file of the project, if anything.
pub fn first_project_file(autogenerate: bool, found: &FileText, resolved: &Resolved) -> (r: Option<
    String,
>)
    ensures
        r.deep_view() == first_text(
            autogenerate,
            found@,
            or_default(yaml_text(first_settings(resolved@)), ""@),
        ),
        r matches Some(t) ==> forall|path: Seq<char>| #[trigger]
            layer_of_file(path, FileTextView::Text(t@)) == Ok::<LayerView, Seq<char>>(
                first_layer(resolved@),
            ),
{
    match found {
        FileText::Missing => if autogenerate {
            Some(autogenerated_yaml(resolved))
        } else {
            None
        },
        _ => None,
    }
}

// ---------------------------------------------------------------------------
// Laws
// ---------------------------------------------------------------------------

/// What the file of a new project was written from is in force again when that file
/// is read, wherever the command line and the environment are silent, and whatever
/// the global file says.
pub proof fn first_settings_stand(
    r: ResolvedView,
    cli: CliView,
    env: EnvironmentView,
    global: LayerView,
    machine: MachineView,
    path: Seq<char>,
)
    ensures
        ({
            let s = resolved(cli, env, global, first_layer(r), machine, path);
            &&& cli.base_dir is None && env.base_dir is None ==> s.base_dir == or_default(
                machine.project_base_dir,
                r.base_dir,
            )
            &&& s.listen == or_default(over(cli.listen, env.listen), r.listen)
            &&& s.port == or_default(over(cli.port, port_of_env(env.port)), r.port)
            &&& s.log_dir == or_default(over(cli.log_dir, env.log_dir), r.log_dir)
            &&& s.debug == or_default(over(cli.debug, flag_in(env.debug)), r.debug)
            &&& s.fqdn == over(cli.fqdn, over(env.fqdn, over(r.fqdn, global.fqdn)))
            &&& s.tls_enabled == or_default(flag_in(env.tls_enabled), r.tls_enabled)
            &&& s.directory_listing == or_default(
                flag_in(env.directory_listing),
                r.directory_listing,
            )
        }),
{
}

/// A first start is remembered. Where there is no file of the project yet, the start
/// writes one, and the global file where there is none either. A later start with the
/// same command line and environment reads both, finds the global file to say what it
/// said, and comes to the same directory, address, port, which may have been a random
/// one, log directory, debugging, host name, TLS and listing of directories, whatever
/// time it is and whatever ports are in use then. No later start writes a file.
///
/// The directory that was requested still resolves to the same, and the one that was
/// served resolves to itself, if to anything. A comment is read to say nothing, and the
/// text of the project to say what it was written from, as `read_layer` and
/// `autogenerated_yaml` promise.
pub proof fn first_starts_are_remembered(
    cli: CliView,
    env: EnvironmentView,
    global_path: Seq<char>,
    global_file: FileTextView,
    project_path: Seq<char>,
    text: Seq<char>,
    global: LayerView,
    first: MachineView,
    later: MachineView,
)
    requires
        layer_of_file(global_path, FileTextView::Text(GLOBAL_HEADER@)) == Ok::<
            LayerView,
            Seq<char>,
        >(silent()),
        layers_of(global_path, global_file, project_path, FileTextView::Missing) == Ok::<
            (LayerView, LayerView),
            Seq<char>,
        >((global, silent())),
        layer_of_file(project_path, FileTextView::Text(text)) == Ok::<LayerView, Seq<char>>(
            first_layer(resolved(cli, env, global, silent(), first, project_path)),
        ),
        later.base_dir == first.base_dir,
        later.project_base_dir matches Some(d) ==> d == resolved(
            cli,
            env,
            global,
            silent(),
            first,
            project_path,
        ).base_dir,
    ensures
        ({
            let r = resolved(cli, env, global, silent(), first, project_path);
            let g = found_after(global_file, first_text(true, global_file, GLOBAL_HEADER@));
            let p = found_after(
                FileTextView::Missing,
                first_text(true, FileTextView::Missing, text),
            );
            let s = resolved(cli, env, global, first_layer(r), later, project_path);
            &&& layers_of(global_path, g, project_path, p) == Ok::<
                (LayerView, LayerView),
                Seq<char>,
            >((global, first_layer(r)))
            &&& s.base_dir == r.base_dir
            &&& s.listen == r.listen
            &&& s.port == r.port
            &&& s.log_dir == r.log_dir
            &&& s.debug == r.debug
            &&& s.fqdn == r.fqdn
            &&& s.tls_enabled == r.tls_enabled
            &&& s.directory_listing == r.directory_listing
            &&& forall|again: bool, t: Seq<char>|
                (#[trigger] first_text(again, g, t)) is None && first_text(again, p, t) is None
        }),
{
}

/// What the command line says stands, whatever the environment and the files
/// say.
pub proof fn command_line_decides(
    cli: CliView,
    env: EnvironmentView,
    global: LayerView,
    project: LayerView,
    machine: MachineView,
    path: Seq<char>,
)
    ensures
        ({
            let r = resolved(cli, env, global, project, machine, path);
            &&& cli.listen is Some ==> r.listen == cli.listen->0
            &&& cli.port is Some ==> r.port == cli.port->0
            &&& cli.log_dir is Some ==> r.log_dir == cli.log_dir->0
            &&& cli.debug is Some ==> r.debug == cli.debug->0
            &&& cli.fqdn is Some ==> r.fqdn == cli.fqdn
            &&& cli.base_dir is Some ==> r.base_dir == or_default(machine.base_dir, cli.base_dir->0)
        }),
{
}

/// What a variable says stands wherever the command line is silent, whatever the
/// files say.
pub proof fn environment_decides(
    cli: CliView,
    env: EnvironmentView,
    global: LayerView,
    project: LayerView,
    machine: MachineView,
    path: Seq<char>,
)
    ensures
        ({
            let r = resolved(cli, env, global, project, machine, path);
            &&& cli.listen is None && env.listen is Some ==> r.listen == env.listen->0
            &&& cli.port is None && port_of_env(env.port) is Some ==> r.port == port_of_env(
                env.port,
            )->0
            &&& cli.log_dir is None && env.log_dir is Some ==> r.log_dir == env.log_dir->0
            &&& cli.debug is None && env.debug is Some ==> r.debug == is_yes(env.debug->0)
            &&& cli.fqdn is None && env.fqdn is Some ==> r.fqdn == env.fqdn
            &&& env.tls_enabled is Some ==> r.tls_enabled == is_yes(env.tls_enabled->0)
            &&& env.directory_listing is Some ==> r.directory_listing == is_yes(
                env.directory_listing->0,
            )
        }),
{
}

/// Where the command line and the environment are silent, what the project file
/// says stands, and what the global file says where that is silent too.
pub proof fn project_decides_before_global(
    global: LayerView,
    project: LayerView,
    machine: MachineView,
    path: Seq<char>,
)
    ensures
        ({
            let r = resolved(no_options(), no_variables(), global, project, machine, path);
            &&& r.listen == or_default(
                over(project.listen, global.listen),
                resolved(
                    no_options(),
                    no_variables(),
                    silent(),
                    silent(),
                    machine,
                    path,
                ).listen,
            )
            &&& over(project.port, global.port) is Some ==> r.port == over(
                project.port,
                global.port,
            )->0
            &&& project.base_dir is Some ==> r.base_dir == or_default(
                machine.project_base_dir,
                project.base_dir->0,
            )
            &&& project.base_dir is None && global.base_dir is Some ==> r.base_dir == or_default(
                machine.global_base_dir,
                global.base_dir->0,
            )
            &&& r.log_dir == or_default(over(project.log_dir, global.log_dir), machine.log_dir)
            &&& r.debug == or_default(over(project.debug, global.debug), false)
            &&& r.fqdn == over(project.fqdn, global.fqdn)
            &&& r.tls_enabled == or_default(over(project.tls_enabled, global.tls_enabled), false)
            &&& forall|k: Seq<char>| #[trigger]
                project.mime_types.contains_key(k) ==> r.mime_types.contains_key(k)
                    && r.mime_types[k] == project.mime_types[k]
            &&& forall|k: Seq<char>| #[trigger]
                project.script_handlers.contains_key(k) ==> r.script_handlers.contains_key(k)
                    && r.script_handlers[k] == project.script_handlers[k]
        }),
{
}

/// An interpreter that no file speaks of stays as it is by default.
pub proof fn other_handlers_stay(
    cli: CliView,
    env: EnvironmentView,
    global: LayerView,
    project: LayerView,
    machine: MachineView,
    path: Seq<char>,
    ext: Seq<char>,
)
    requires
        !global.script_handlers.contains_key(ext),
        !project.script_handlers.contains_key(ext),
    ensures
        ({
            let h = resolved(cli, env, global, project, machine, path).script_handlers;
            &&& h.contains_key(ext) == default_handlers().contains_key(ext)
            &&& h.contains_key(ext) ==> h[ext] == default_handlers()[ext]
        }),
{
}

/// An empty list of extensions in the project file turns server-side directives
/// off, and one that is not empty turns them on for its extensions, whatever the
/// global file says.
pub proof fn project_extensions_decide(
    cli: CliView,
    env: EnvironmentView,
    global: LayerView,
    project: LayerView,
    machine: MachineView,
    path: Seq<char>,
)
    requires
        project.ssi_extensions is Some,
    ensures
        ({
            let s = resolved(cli, env, global, project, machine, path).ssi_extensions;
            let l = project.ssi_extensions->0;
            &&& l.len() == 0 ==> s.len() == 0
            &&& forall|i: int| 0 <= i < l.len() ==> s.contains(dotted(#[trigger] l[i]))
        }),
{
    let known = ssi_layered(default_ssi(), global.ssi_extensions);
    let l = project.ssi_extensions->0;
    if l.len() > 0 {
        lemma_joined_extensions(known, l);
    }
}

proof fn lemma_joined_extensions(known: Seq<Seq<char>>, l: Seq<Seq<char>>)
    ensures
        forall|i: int|
            0 <= i < l.len() ==> joined_extensions(known, l).contains(dotted(#[trigger] l[i])),
        forall|e: Seq<char>| #[trigger]
            known.contains(e) ==> joined_extensions(known, l).contains(e),
        known.no_duplicates() ==> joined_extensions(known, l).no_duplicates(),
    decreases l.len(),
{
    if l.len() > 0 {
        let before = joined_extensions(known, l.drop_last());
        let all = joined_extensions(known, l);
        let e = dotted(l.last());
        lemma_joined_extensions(known, l.drop_last());
        assert forall|x: Seq<char>| #[trigger] before.contains(x) implies all.contains(x) by {
            if !before.contains(e) {
                let j = choose|j: int| 0 <= j < before.len() && before[j] == x;
                assert(before.push(e)[j] == x);
            }
        }
        assert(all.contains(e)) by {
            if !before.contains(e) {
                assert(before.push(e)[before.len() as int] == e);
            }
        }
        assert forall|i: int| 0 <= i < l.len() implies all.contains(dotted(#[trigger] l[i])) by {
            if i < l.len() - 1 {
                assert(l.drop_last()[i] == l[i]);
            }
        }
    }
}

/// No extension is listed twice.
pub proof fn extensions_are_listed_once(
    cli: CliView,
    env: EnvironmentView,
    global: LayerView,
    project: LayerView,
    machine: MachineView,
    path: Seq<char>,
)
    ensures
        resolved(cli, env, global, project, machine, path).ssi_extensions.no_duplicates(),
{
    let known = ssi_layered(default_ssi(), global.ssi_extensions);
    if global.ssi_extensions is Some {
        lemma_joined_extensions(default_ssi(), global.ssi_extensions->0);
    }
    if project.ssi_extensions is Some {
        lemma_joined_extensions(known, project.ssi_extensions->0);
    }
}

/// Unless something says otherwise, the server listens to its own machine only, on
/// a port from 59000 to 59999.
pub proof fn defaults_stay_local(
    cli: CliView,
    env: EnvironmentView,
    global: LayerView,
    project: LayerView,
    machine: MachineView,
    path: Seq<char>,
)
    ensures
        ({
            let r = resolved(cli, env, global, project, machine, path);
            &&& cli.listen is None && env.listen is None && project.listen is None
                && global.listen is None ==> r.listen == "::1"@ || r.listen == "127.0.0.1"@
            &&& cli.port is None && port_of_env(env.port) is None && project.port is None
                && global.port is None ==> 59000 <= r.port <= 59999
        }),
{
    lemma_free_port(machine.nanos, machine.taken_ports, 0);
}

proof fn lemma_free_port(nanos: u32, taken: Seq<u16>, k: int)
    requires
        0 <= k,
    ensures
        match free_port(nanos, taken, k) {
            Some(p) => 59000 <= p <= 59999 && !taken.contains(p),
            None => forall|j: int| k <= j < 1000 ==> taken.contains(#[trigger] port_after(nanos, j)),
        },
    decreases 1000 - k,
{
    if k < 1000 && taken.contains(port_after(nanos, k)) {
        lemma_free_port(nanos, taken, k + 1);
        if free_port(nanos, taken, k) is None {
            assert forall|j: int| k <= j < 1000 implies taken.contains(
                #[trigger] port_after(nanos, j),
            ) by {}
        }
    }
}

/// Where no setting names a port, the server takes one that was not found to be in
/// use, as long as there is one.
pub proof fn default_ports_are_unused(
    cli: CliView,
    env: EnvironmentView,
    global: LayerView,
    project: LayerView,
    machine: MachineView,
    path: Seq<char>,
    free: u16,
)
    requires
        port_set(cli, env, global, project) is None,
        59000 <= free <= 59999,
        !machine.taken_ports.contains(free),
    ensures
        !machine.taken_ports.contains(
            resolved(cli, env, global, project, machine, path).port,
        ),
        59000 <= resolved(cli, env, global, project, machine, path).port <= 59999,
{
    let nanos = machine.nanos;
    lemma_free_port(nanos, machine.taken_ports, 0);
    let j = (free - 59000 - nanos as int) % 1000;
    assert((nanos as int + j) % 1000 == free - 59000) by (nonlinear_arith)
        requires
            j == (free - 59000 - nanos as int) % 1000,
            59000 <= free <= 59999,
    ;
    assert(port_after(nanos, j) == free);
}

/// A search for an unused port comes to an end: as long as fewer ports were found
/// to be in use than there are, there is a next one to try, and it was not tried
/// yet.
pub proof fn port_searches_end(nanos: u32, taken: Seq<u16>)
    ensures
        taken.len() < 1000 ==> free_port(nanos, taken, 0) is Some,
        free_port(nanos, taken, 0) is Some ==> !taken.contains(free_port(nanos, taken, 0)->0),
{
    lemma_free_port(nanos, taken, 0);
    if taken.len() < 1000 && free_port(nanos, taken, 0) is None {
        let numbers = taken.map_values(|p: u16| p as int);
        let all = vstd::set_lib::set_int_range(59000, 60000);
        vstd::set_lib::lemma_int_range(59000, 60000);
        assert forall|x: int| #[trigger] all.contains(x) implies numbers.to_set().contains(x) by {
            let j = (x - 59000 - nanos as int) % 1000;
            assert((nanos as int + j) % 1000 == x - 59000) by (nonlinear_arith)
                requires
                    j == (x - 59000 - nanos as int) % 1000,
                    59000 <= x < 60000,
            ;
            let p = port_after(nanos, j);
            assert(taken.contains(p));
            let i = choose|i: int| 0 <= i < taken.len() && taken[i] == p;
            assert(numbers[i] == x);
        }
        numbers.lemma_cardinality_of_set();
        vstd::set_lib::lemma_len_subset(all, numbers.to_set());
    }
}

/// A test of the configuration accepts just what loading it accepts, says the same
/// of what it does not accept, and is about the same files, as long as no variable
/// names the directory.
pub proof fn tests_accept_what_loads(
    cli: CliView,
    env: EnvironmentView,
    config_dir: Seq<char>,
    canonical: Option<Seq<char>>,
    global: FileTextView,
    project: FileTextView,
)
    requires
        env.base_dir is None,
    ensures
        tested_files(cli, config_dir, canonical) == config_files(cli, env, config_dir, canonical),
        ({
            let (g, p) = config_files(cli, env, config_dir, canonical);
            match layers_of(g, global, p, project) {
                Ok(_) => !is_broken(global) && !is_broken(project),
                Err(e) => Err::<LayerView, Seq<char>>(e) == (if is_broken(global) {
                    layer_of_file(g, global)
                } else {
                    layer_of_file(p, project)
                }) && (is_broken(global) || is_broken(project)),
            }
        }),
        global is Missing && project is Missing ==> !is_broken(global) && !is_broken(project),
{
}

} // verus!
