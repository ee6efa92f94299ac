//! Serving requests.

pub mod acme;
pub mod cascade;
pub mod certs;
pub mod chunks;
pub mod compress;
pub mod dashboard;
pub mod fields;
pub mod files;
pub mod handle;
pub mod headers;
pub mod history;
pub mod htaccess;
pub mod http;
pub mod http3;
pub mod https;
pub mod info;
pub mod json;
pub mod lifecycle;
pub mod logs;
pub mod lookup;
pub mod markup;
pub mod pages;
pub mod passwords;
pub mod proxy;
pub mod relays;
pub mod reload;
pub mod rewrite;
pub mod scripts;
pub mod ssi;
pub mod ssi_expr;
pub mod ssi_text;
pub mod startup;
pub mod upstream;
