//! Settings: what the command line, the environment and the configuration files
//! say, and what comes out of them together.

use vstd::prelude::*;

use crate::table::Table;



pub mod headers;
pub mod resolve;
pub mod yaml;

verus! {

/// What one configuration file says. A setting that it leaves out is decided
/// elsewhere.
pub struct Layer {
    /// The directory whose files are served.
    pub base_dir: Option<String>,
    /// The address to listen on.
    pub listen: Option<String>,
    /// The port to listen on.
    pub port: Option<u16>,
    /// Where log files go.
    pub log_dir: Option<String>,
    /// Whether error pages tell what went wrong.
    pub debug: Option<bool>,
    /// The name that a certificate is for.
    pub fqdn: Option<String>,
    /// Whether to serve HTTPS.
    pub tls_enabled: Option<bool>,
    /// Whether a directory without an index page is listed.
    pub directory_listing: Option<bool>,
    /// Media types by file extension.
    pub mime_types: Table<String>,
    /// Interpreters by file extension.
    pub script_handlers: Table<Option<String>>,
    /// Extensions of pages with server-side directives.
    pub ssi_extensions: Option<Vec<String>>,
    /// Headers of every response: a value sets one, and none takes it away.
    pub security_headers: Table<Option<String>>,
    /// How much the `Server` header tells.
    pub server_tokens: Option<String>,
    /// Headers for other origins.
    pub cors: Option<CorsLayer>,
    /// A development server to hand requests to.
    pub proxy: ProxyLayer,
    /// The access log.
    pub logging_access: LogStreamLayer,
    /// The error log.
    pub logging_error: LogStreamLayer,
}

/// What one configuration file says, as values.
#[verifier::ext_equal]
pub struct LayerView {
    pub base_dir: Option<Seq<char>>,
    pub listen: Option<Seq<char>>,
    pub port: Option<u16>,
    pub log_dir: Option<Seq<char>>,
    pub debug: Option<bool>,
    pub fqdn: Option<Seq<char>>,
    pub tls_enabled: Option<bool>,
    pub directory_listing: Option<bool>,
    pub mime_types: Map<Seq<char>, Seq<char>>,
    pub script_handlers: Map<Seq<char>, Option<Seq<char>>>,
    pub ssi_extensions: Option<Seq<Seq<char>>>,
    pub security_headers: Map<Seq<char>, Option<Seq<char>>>,
    pub server_tokens: Option<Seq<char>>,
    pub cors: Option<CorsLayerView>,
    pub proxy: ProxyLayerView,
    pub logging_access: LogStreamLayerView,
    pub logging_error: LogStreamLayerView,
}

impl View for Layer {
    type V = LayerView;

    open spec fn view(&self) -> LayerView {
        LayerView {
            base_dir: self.base_dir.deep_view(),
            listen: self.listen.deep_view(),
            port: self.port,
            log_dir: self.log_dir.deep_view(),
            debug: self.debug,
            fqdn: self.fqdn.deep_view(),
            tls_enabled: self.tls_enabled,
            directory_listing: self.directory_listing,
            mime_types: self.mime_types@,
            script_handlers: self.script_handlers@,
            ssi_extensions: self.ssi_extensions.deep_view(),
            security_headers: self.security_headers@,
            server_tokens: self.server_tokens.deep_view(),
            cors: self.cors.deep_view(),
            proxy: self.proxy@,
            logging_access: self.logging_access@,
            logging_error: self.logging_error@,
        }
    }
}

/// What a configuration file says of the headers for other origins.
pub enum CorsLayer {
    /// There are none.
    Disabled,
    /// A value sets a header, and none takes it away.
    Headers(Table<Option<String>>),
}

/// What a configuration file says of the headers for other origins.
pub enum CorsLayerView {
    Disabled,
    Headers(Map<Seq<char>, Option<Seq<char>>>),
}

impl DeepView for CorsLayer {
    type V = CorsLayerView;

    open spec fn deep_view(&self) -> CorsLayerView {
        match self {
            CorsLayer::Disabled => CorsLayerView::Disabled,
            CorsLayer::Headers(t) => CorsLayerView::Headers(t@),
        }
    }
}

/// What a configuration file says of a development server.
pub struct ProxyLayer {
    /// Whether requests go to one at all.
    pub enabled: Option<bool>,
    /// The name of a framework.
    pub kind: Option<String>,
    /// The command that starts it.
    pub command: Option<String>,
    /// Where it listens.
    pub upstream: Option<String>,
    /// The paths that it gets.
    pub path_prefix: Option<String>,
}

/// What a configuration file says of a development server.
pub struct ProxyLayerView {
    pub enabled: Option<bool>,
    pub kind: Option<Seq<char>>,
    pub command: Option<Seq<char>>,
    pub upstream: Option<Seq<char>>,
    pub path_prefix: Option<Seq<char>>,
}

impl View for ProxyLayer {
    type V = ProxyLayerView;

    open spec fn view(&self) -> ProxyLayerView {
        ProxyLayerView {
            enabled: self.enabled,
            kind: self.kind.deep_view(),
            command: self.command.deep_view(),
            upstream: self.upstream.deep_view(),
            path_prefix: self.path_prefix.deep_view(),
        }
    }
}

/// What a configuration file says of one log.
pub struct LogStreamLayer {
    /// The format of its lines.
    pub format: Option<String>,
    /// When a new file is started.
    pub rotate: Option<String>,
    /// How long old files stay.
    pub keep: Option<String>,
}

/// What a configuration file says of one log.
pub struct LogStreamLayerView {
    pub format: Option<Seq<char>>,
    pub rotate: Option<Seq<char>>,
    pub keep: Option<Seq<char>>,
}

impl View for LogStreamLayer {
    type V = LogStreamLayerView;

    open spec fn view(&self) -> LogStreamLayerView {
        LogStreamLayerView {
            format: self.format.deep_view(),
            rotate: self.rotate.deep_view(),
            keep: self.keep.deep_view(),
        }
    }
}

/// What a file says that is empty or missing.
pub open spec fn silent() -> LayerView {
    LayerView {
        base_dir: None,
        listen: None,
        port: None,
        log_dir: None,
        debug: None,
        fqdn: None,
        tls_enabled: None,
        directory_listing: None,
        mime_types: Map::empty(),
        script_handlers: Map::empty(),
        ssi_extensions: None,
        security_headers: Map::empty(),
        server_tokens: None,
        cors: None,
        proxy: silent_proxy(),
        logging_access: silent_stream(),
        logging_error: silent_stream(),
    }
}

/// Nothing said of a development server.
pub open spec fn silent_proxy() -> ProxyLayerView {
    ProxyLayerView { enabled: None, kind: None, command: None, upstream: None, path_prefix: None }
}

/// Nothing said of a log.
pub open spec fn silent_stream() -> LogStreamLayerView {
    LogStreamLayerView { format: None, rotate: None, keep: None }
}

impl Default for ProxyLayer {
    fn default() -> (r: ProxyLayer)
        ensures
            r@ == silent_proxy(),
    {
        ProxyLayer { enabled: None, kind: None, command: None, upstream: None, path_prefix: None }
    }
}

impl Default for LogStreamLayer {
    fn default() -> (r: LogStreamLayer)
        ensures
            r@ == silent_stream(),
    {
        LogStreamLayer { format: None, rotate: None, keep: None }
    }
}

impl Default for Layer {
    fn default() -> (r: Layer)
        ensures
            r@ == silent(),
    {
        Layer {
            base_dir: None,
            listen: None,
            port: None,
            log_dir: None,
            debug: None,
            fqdn: None,
            tls_enabled: None,
            directory_listing: None,
            mime_types: Table::new(),
            script_handlers: Table::new(),
            ssi_extensions: None,
            security_headers: Table::new(),
            server_tokens: None,
            cors: None,
            proxy: ProxyLayer::default(),
            logging_access: LogStreamLayer::default(),
            logging_error: LogStreamLayer::default(),
        }
    }
}

} // verus!
