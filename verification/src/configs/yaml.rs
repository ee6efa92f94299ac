//! Configuration documents: what a YAML document says of the settings.

use vstd::prelude::*;

use crate::configs::{
    silent, CorsLayer, CorsLayerView, Layer, LayerView, LogStreamLayer, LogStreamLayerView,
};
use crate::configs::{ProxyLayer, ProxyLayerView};
use crate::table::Table;

verus! {

/// A YAML value as far as settings are read from it.
#[derive(Debug)]
pub enum Yaml {
    /// Nothing.
    Null,
    /// A truth value.
    Bool(bool),
    /// A whole number that is not negative.
    Number(u64),
    /// A string.
    Text(String),
    /// A list of values.
    List(Vec<Yaml>),
    /// A mapping, in the order in which its entries stand.
    Entries(Vec<(Yaml, Yaml)>),
    /// A value with a tag before it.
    Tagged(Box<Yaml>),
    /// A number of another kind.
    Other,
}

/// A setting to write down.
#[derive(Debug)]
pub enum Setting {
    /// A string.
    Text(String),
    /// A whole number.
    Number(u64),
    /// A truth value.
    Flag(bool),
    /// Truth values by name.
    Flags(Vec<(String, bool)>),
}

/// A setting to write down, as a value.
pub enum SettingView {
    Text(Seq<char>),
    Number(u64),
    Flag(bool),
    Flags(Seq<(Seq<char>, bool)>),
}

impl DeepView for Setting {
    type V = SettingView;

    open spec fn deep_view(&self) -> SettingView {
        match self {
            Setting::Text(s) => SettingView::Text(s@),
            Setting::Number(n) => SettingView::Number(*n),
            Setting::Flag(b) => SettingView::Flag(*b),
            Setting::Flags(f) => SettingView::Flags(f.deep_view()),
        }
    }
}

/// A value without the tags before it.
pub open spec fn untagged(y: Yaml) -> Yaml
    decreases y,
{
    match y {
        Yaml::Tagged(inner) => untagged(*inner),
        _ => y,
    }
}

/// A value without the tags before it.
pub fn untag(y: &Yaml) -> (r: &Yaml)
    ensures
        *r == untagged(*y),
    decreases y,
{
    match y {
        Yaml::Tagged(inner) => untag(inner),
        _ => y,
    }
}

/// The string that a value is.
pub open spec fn text_in(y: Yaml) -> Option<Seq<char>> {
    match untagged(y) {
        Yaml::Text(s) => Some(s@),
        _ => None,
    }
}

/// The string that a value is.
pub fn text_of(y: &Yaml) -> (r: Option<String>)
    ensures
        r.deep_view() == text_in(*y),
{
    match untag(y) {
        Yaml::Text(s) => Some(s.clone()),
        _ => None,
    }
}

/// The truth value that a value is.
pub open spec fn bool_in(y: Yaml) -> Option<bool> {
    match untagged(y) {
        Yaml::Bool(b) => Some(b),
        _ => None,
    }
}

/// The truth value that a value is.
pub fn bool_of(y: &Yaml) -> (r: Option<bool>)
    ensures
        r == bool_in(*y),
{
    match untag(y) {
        Yaml::Bool(b) => Some(*b),
        _ => None,
    }
}

/// The port number that a value is.
pub open spec fn port_in(y: Yaml) -> Option<u16> {
    match untagged(y) {
        Yaml::Number(n) => if n <= 0xffff {
            Some(n as u16)
        } else {
            None
        },
        _ => None,
    }
}

/// The port number that a value is.
pub fn port_of(y: &Yaml) -> (r: Option<u16>)
    ensures
        r == port_in(*y),
{
    match untag(y) {
        Yaml::Number(n) => if *n <= 0xffff {
            Some(*n as u16)
        } else {
            None
        },
        _ => None,
    }
}

/// Whether a value is a plain string that reads `key`.
pub open spec fn is_key(y: Yaml, key: Seq<char>) -> bool {
    match y {
        Yaml::Text(s) => s@ == key,
        _ => false,
    }
}

/// The value of the first entry with a key.
pub open spec fn entry(e: Seq<(Yaml, Yaml)>, key: Seq<char>) -> Option<Yaml>
    decreases e.len(),
{
    if e.len() == 0 {
        None
    } else if is_key(e[0].0, key) {
        Some(e[0].1)
    } else {
        entry(e.skip(1), key)
    }
}

/// What a mapping holds under a key.
pub open spec fn under(y: Yaml, key: Seq<char>) -> Option<Yaml> {
    match untagged(y) {
        Yaml::Entries(e) => entry(e@, key),
        _ => None,
    }
}

/// What a value that may be missing holds under a key.
pub open spec fn under_some(y: Option<Yaml>, key: Seq<char>) -> Option<Yaml> {
    match y {
        Some(v) => under(v, key),
        None => None,
    }
}

/// The value that an optional reference points to.
pub open spec fn pointed(r: Option<&Yaml>) -> Option<Yaml> {
    match r {
        Some(v) => Some(*v),
        None => None,
    }
}

/// What a mapping holds under a key.
pub fn get<'a>(y: &'a Yaml, key: &str) -> (r: Option<&'a Yaml>)
    ensures
        pointed(r) == under(*y, key@),
{
    match untag(y) {
        Yaml::Entries(e) => {
            let n: usize = e.len();
            let mut i: usize = 0;
            assert(e@.skip(0) =~= e@);
            while i < n
                invariant
                    i <= n,
                    n == e@.len(),
                    untagged(*y) == Yaml::Entries(*e),
                    entry(e@, key@) == entry(e@.skip(i as int), key@),
                decreases n - i,
            {
                assert(e@.skip(i as int)[0] == e@[i as int]);
                assert(e@.skip(i as int).skip(1) =~= e@.skip(i + 1));
                let k = &e[i].0;
                let found = match k {
                    Yaml::Text(s) => s.as_str().eq(key),
                    _ => false,
                };
                if found {
                    return Some(&e[i].1);
                }
                i = i + 1;
            }
            None
        },
        _ => None,
    }
}

/// What a value that may be missing holds under a key.
pub fn get_in<'a>(y: Option<&'a Yaml>, key: &str) -> (r: Option<&'a Yaml>)
    ensures
        pointed(r) == under_some(pointed(y), key@),
{
    match y {
        Some(v) => get(v, key),
        None => None,
    }
}

/// The string under a key.
pub open spec fn text_under(y: Option<Yaml>, key: Seq<char>) -> Option<Seq<char>> {
    match under_some(y, key) {
        Some(v) => text_in(v),
        None => None,
    }
}

/// The string under a key.
pub fn text_at(y: Option<&Yaml>, key: &str) -> (r: Option<String>)
    ensures
        r.deep_view() == text_under(pointed(y), key@),
{
    match get_in(y, key) {
        Some(v) => text_of(v),
        None => None,
    }
}

/// The truth value under a key.
pub open spec fn bool_under(y: Option<Yaml>, key: Seq<char>) -> Option<bool> {
    match under_some(y, key) {
        Some(v) => bool_in(v),
        None => None,
    }
}

/// The truth value under a key.
pub fn bool_at(y: Option<&Yaml>, key: &str) -> (r: Option<bool>)
    ensures
        r == bool_under(pointed(y), key@),
{
    match get_in(y, key) {
        Some(v) => bool_of(v),
        None => None,
    }
}

/// The entries whose key and value are strings. Of two with one key the later
/// one counts.
pub open spec fn strings(e: Seq<(Yaml, Yaml)>) -> Map<Seq<char>, Seq<char>>
    decreases e.len(),
{
    if e.len() == 0 {
        Map::empty()
    } else {
        let rest = strings(e.drop_last());
        match (text_in(e.last().0), text_in(e.last().1)) {
            (Some(k), Some(v)) => rest.insert(k, v),
            _ => rest,
        }
    }
}

/// The entries whose key is a string, with the value where it is a string too.
pub open spec fn overrides(e: Seq<(Yaml, Yaml)>) -> Map<Seq<char>, Option<Seq<char>>>
    decreases e.len(),
{
    if e.len() == 0 {
        Map::empty()
    } else {
        let rest = overrides(e.drop_last());
        match text_in(e.last().0) {
            Some(k) => rest.insert(k, text_in(e.last().1)),
            None => rest,
        }
    }
}

/// The strings of a mapping under a key.
pub open spec fn strings_under(y: Yaml, key: Seq<char>) -> Map<Seq<char>, Seq<char>> {
    match under(y, key) {
        Some(v) => match untagged(v) {
            Yaml::Entries(e) => strings(e@),
            _ => Map::empty(),
        },
        None => Map::empty(),
    }
}

/// The strings of a mapping under a key.
fn strings_at(y: &Yaml, key: &str) -> (r: Table<String>)
    ensures
        r@ == strings_under(*y, key@),
{
    let mut out: Table<String> = Table::new();
    if let Some(v) = get(y, key) {
        if let Yaml::Entries(e) = untag(v) {
            let n: usize = e.len();
            let mut i: usize = 0;
            assert(e@.take(0) =~= Seq::empty());
            while i < n
                invariant
                    i <= n,
                    n == e@.len(),
                    out@ == strings(e@.take(i as int)),
                decreases n - i,
            {
                assert(e@.take(i + 1).drop_last() =~= e@.take(i as int));
                assert(e@.take(i + 1).last() == e@[i as int]);
                if let Some(k) = text_of(&e[i].0) {
                    if let Some(s) = text_of(&e[i].1) {
                        out.insert(k.as_str(), s);
                    }
                }
                i = i + 1;
            }
            assert(e@.take(n as int) =~= e@);
        }
    }
    out
}

/// The overrides that entries hold.
fn overrides_of(e: &Vec<(Yaml, Yaml)>) -> (r: Table<Option<String>>)
    ensures
        r@ == overrides(e@),
{
    let mut out: Table<Option<String>> = Table::new();
    let n: usize = e.len();
    let mut i: usize = 0;
    assert(e@.take(0) =~= Seq::empty());
    while i < n
        invariant
            i <= n,
            n == e@.len(),
            out@ == overrides(e@.take(i as int)),
        decreases n - i,
    {
        assert(e@.take(i + 1).drop_last() =~= e@.take(i as int));
        assert(e@.take(i + 1).last() == e@[i as int]);
        if let Some(k) = text_of(&e[i].0) {
            let v = text_of(&e[i].1);
            out.insert(k.as_str(), v);
        }
        i = i + 1;
    }
    assert(e@.take(n as int) =~= e@);
    out
}

/// The overrides of a mapping under a key.
pub open spec fn overrides_under(y: Yaml, key: Seq<char>) -> Map<Seq<char>, Option<Seq<char>>> {
    match under(y, key) {
        Some(v) => match untagged(v) {
            Yaml::Entries(e) => overrides(e@),
            _ => Map::empty(),
        },
        None => Map::empty(),
    }
}

/// The overrides of a mapping under a key.
fn overrides_at(y: &Yaml, key: &str) -> (r: Table<Option<String>>)
    ensures
        r@ == overrides_under(*y, key@),
{
    if let Some(v) = get(y, key) {
        if let Yaml::Entries(e) = untag(v) {
            return overrides_of(e);
        }
    }
    Table::new()
}

/// The strings of a list.
pub open spec fn items(l: Seq<Yaml>) -> Seq<Seq<char>>
    decreases l.len(),
{
    if l.len() == 0 {
        Seq::empty()
    } else {
        let rest = items(l.drop_last());
        match text_in(l.last()) {
            Some(s) => rest.push(s),
            None => rest,
        }
    }
}

/// The strings of the list under a key.
pub open spec fn items_under(y: Yaml, key: Seq<char>) -> Option<Seq<Seq<char>>> {
    match under(y, key) {
        Some(v) => match untagged(v) {
            Yaml::List(l) => Some(items(l@)),
            _ => None,
        },
        None => None,
    }
}

/// The strings of the list under a key.
fn items_at(y: &Yaml, key: &str) -> (r: Option<Vec<String>>)
    ensures
        r.deep_view() == items_under(*y, key@),
{
    if let Some(v) = get(y, key) {
        if let Yaml::List(l) = untag(v) {
            let mut out: Vec<String> = Vec::new();
            let n: usize = l.len();
            let mut i: usize = 0;
            assert(l@.take(0) =~= Seq::empty());
            assert(out.deep_view() =~= Seq::<Seq<char>>::empty());
            while i < n
                invariant
                    i <= n,
                    n == l@.len(),
                    out.deep_view() == items(l@.take(i as int)),
                decreases n - i,
            {
                assert(l@.take(i + 1).drop_last() =~= l@.take(i as int));
                assert(l@.take(i + 1).last() == l@[i as int]);
                if let Some(s) = text_of(&l[i]) {
                    let ghost before = out.deep_view();
                    out.push(s);
                    assert(out.deep_view() =~= before.push(s@));
                }
                i = i + 1;
            }
            assert(l@.take(n as int) =~= l@);
            return Some(out);
        }
    }
    None
}

/// What a document says of the headers for other origins: `false` turns them
/// off, `true` keeps the ones that are there, and a mapping changes them.
pub open spec fn cors_under(y: Yaml) -> Option<CorsLayerView> {
    match under(y, "cors"@) {
        Some(v) => match untagged(v) {
            Yaml::Bool(b) => if b {
                Some(CorsLayerView::Headers(Map::empty()))
            } else {
                Some(CorsLayerView::Disabled)
            },
            Yaml::Entries(e) => Some(CorsLayerView::Headers(overrides(e@))),
            _ => None,
        },
        None => None,
    }
}

/// What a document says of the headers for other origins.
pub fn cors_layer(y: &Yaml) -> (r: Option<CorsLayer>)
    ensures
        r.deep_view() == cors_under(*y),
{
    match get(y, "cors") {
        Some(v) => match untag(v) {
            Yaml::Bool(b) => if *b {
                Some(CorsLayer::Headers(Table::new()))
            } else {
                Some(CorsLayer::Disabled)
            },
            Yaml::Entries(e) => Some(CorsLayer::Headers(overrides_of(e))),
            _ => None,
        },
        None => None,
    }
}

/// What the document says of one log.
pub open spec fn stream_under(y: Option<Yaml>) -> LogStreamLayerView {
    LogStreamLayerView {
        format: text_under(y, "format"@),
        rotate: text_under(y, "rotate"@),
        keep: text_under(y, "keep"@),
    }
}

fn stream_at(y: Option<&Yaml>) -> (r: LogStreamLayer)
    ensures
        r@ == stream_under(pointed(y)),
{
    LogStreamLayer {
        format: text_at(y, "format"),
        rotate: text_at(y, "rotate"),
        keep: text_at(y, "keep"),
    }
}

/// What the document says of a development server to hand requests to.
pub open spec fn proxy_under(y: Option<Yaml>) -> ProxyLayerView {
    ProxyLayerView {
        enabled: bool_under(y, "enabled"@),
        kind: text_under(y, "type"@),
        command: text_under(y, "command"@),
        upstream: text_under(y, "upstream"@),
        path_prefix: text_under(y, "path_prefix"@),
    }
}

fn proxy_at(y: Option<&Yaml>) -> (r: ProxyLayer)
    ensures
        r@ == proxy_under(pointed(y)),
{
    ProxyLayer {
        enabled: bool_at(y, "enabled"),
        kind: text_at(y, "type"),
        command: text_at(y, "command"),
        upstream: text_at(y, "upstream"),
        path_prefix: text_at(y, "path_prefix"),
    }
}

/// What a document says of every setting.
pub open spec fn layer_in(y: Yaml) -> LayerView {
    LayerView {
        base_dir: text_under(Some(y), "base_dir"@),
        listen: text_under(Some(y), "listen"@),
        port: match under(y, "port"@) {
            Some(v) => port_in(v),
            None => None,
        },
        log_dir: text_under(Some(y), "log_dir"@),
        debug: bool_under(Some(y), "debug"@),
        fqdn: text_under(Some(y), "fqdn"@),
        tls_enabled: bool_under(under(y, "tls"@), "enabled"@),
        directory_listing: bool_under(Some(y), "directory_listing"@),
        mime_types: strings_under(y, "mime_types"@),
        script_handlers: overrides_under(y, "script_handlers"@),
        ssi_extensions: items_under(y, "ssi_extensions"@),
        security_headers: overrides_under(y, "security_headers"@),
        server_tokens: text_under(Some(y), "server_tokens"@),
        cors: cors_under(y),
        proxy: proxy_under(under(y, "proxy"@)),
        logging_access: stream_under(under_some(under(y, "logging"@), "access"@)),
        logging_error: stream_under(under_some(under(y, "logging"@), "error"@)),
    }
}

/// An empty document says nothing.
pub proof fn lemma_null_is_silent()
    ensures
        layer_in(Yaml::Null) == silent(),
{
}

/// What a document says of every setting.
pub fn parse_layer(y: &Yaml) -> (r: Layer)
    ensures
        r@ == layer_in(*y),
{
    let logging = get(y, "logging");
    let port: Option<u16> = match get(y, "port") {
        Some(v) => port_of(v),
        None => None,
    };
    Layer {
        base_dir: text_at(Some(y), "base_dir"),
        listen: text_at(Some(y), "listen"),
        port,
        log_dir: text_at(Some(y), "log_dir"),
        debug: bool_at(Some(y), "debug"),
        fqdn: text_at(Some(y), "fqdn"),
        tls_enabled: bool_at(get(y, "tls"), "enabled"),
        directory_listing: bool_at(Some(y), "directory_listing"),
        mime_types: strings_at(y, "mime_types"),
        script_handlers: overrides_at(y, "script_handlers"),
        ssi_extensions: items_at(y, "ssi_extensions"),
        security_headers: overrides_at(y, "security_headers"),
        server_tokens: text_at(Some(y), "server_tokens"),
        cors: cors_layer(y),
        proxy: proxy_at(get(y, "proxy")),
        logging_access: stream_at(get_in(logging, "access")),
        logging_error: stream_at(get_in(logging, "error")),
    }
}

// ---------------------------------------------------------------------------
// What was written
// ---------------------------------------------------------------------------

/// Whether a name stands on one line, in printable characters of ASCII.
pub open spec fn is_one_line(s: Seq<char>) -> bool {
    forall|i: int| 0 <= i < s.len() ==> ' ' <= #[trigger] s[i] <= '~'
}

/// Whether a text is one line that is a comment.
pub open spec fn is_comment(s: Seq<char>) -> bool {
    s.len() > 1 && s[0] == '#' && s.last() == '\n' && is_one_line(s.drop_last())
}

/// Whether the names in a setting stand on one line each and differ.
pub open spec fn names_fit(s: SettingView) -> bool {
    match s {
        SettingView::Flags(f) => {
            &&& forall|i: int| 0 <= i < f.len() ==> is_one_line(#[trigger] f[i].0)
            &&& forall|i: int, j: int|
                0 <= i < j < f.len() ==> #[trigger] f[i].0 != #[trigger] f[j].0
        },
        _ => true,
    }
}

/// Whether the names of settings stand on one line each and differ.
pub open spec fn all_names_fit(e: Seq<(Seq<char>, SettingView)>) -> bool {
    &&& forall|i: int| 0 <= i < e.len() ==> is_one_line((#[trigger] e[i]).0) && names_fit(e[i].1)
    &&& forall|i: int, j: int| 0 <= i < j < e.len() ==> #[trigger] e[i].0 != #[trigger] e[j].0
}

/// Whether a value is that of a setting.
pub open spec fn is_setting(y: Yaml, s: SettingView) -> bool {
    match s {
        SettingView::Text(t) => y matches Yaml::Text(x) && x@ == t,
        SettingView::Number(n) => y == Yaml::Number(n),
        SettingView::Flag(b) => y == Yaml::Bool(b),
        SettingView::Flags(f) => y is Entries && forall|i: int|
            0 <= i < f.len() ==> under(y, (#[trigger] f[i]).0) == Some(Yaml::Bool(f[i].1)),
    }
}

/// Whether a document is a mapping with these settings and no others.
pub open spec fn holds_settings(y: Yaml, e: Seq<(Seq<char>, SettingView)>) -> bool {
    &&& y is Entries
    &&& forall|i: int|
        0 <= i < e.len() ==> (under(y, (#[trigger] e[i]).0) matches Some(v) && is_setting(
            v,
            e[i].1,
        ))
    &&& forall|k: Seq<char>|
        (forall|i: int| 0 <= i < e.len() ==> (#[trigger] e[i]).0 != k) ==> #[trigger] under(y, k)
            is None
}

} // verus!
