//! Pages with server-side directives. A page may take in files, which are asked
//! for one after the other: rendering gives either the page or the path of a
//! file that has to be looked up first.

use vstd::prelude::*;

use crate::configs::resolve::{Resolved, ResolvedView};
use crate::digits::{decimal, decimal_of};
use crate::outside::{lossy_string, lossy_text};
use crate::paths::{
    absolute, components, components_of, extension, extension_of, file_name, file_name_of,
    is_absolute, is_within, join_path, parent, parent_of, under_dir, within,
};
use crate::servers::files::{percent_decode, plain_path};
use crate::servers::http::{Request, RequestView, Response};
use crate::servers::pages::{page_response, respond_page};
use crate::servers::scripts::{client_parts, header_variable};
use crate::servers::ssi_expr::{eval_expr, truth};
use crate::servers::ssi_text::{
    attr, attribute, attributes, bare_end, entities, entity_encode, expand, expanded,
    parse_attributes, url_bytes, url_encode,
};
use crate::supports::calendar::{format_http_date, http_date};
use crate::supports::version::VERSION;
use crate::table::{pairs_of, Table};
use crate::text::{
    after, after_char, before, before_char, chars_of, find, find_in, lower, lowered, replaced,
    rsplit_once_at, space, string_of, strip_prefix, trim, trimmed, uppered, without_prefix,
};

verus! {

/// What stands in a page for a directive that failed.
pub const ERROR_MARKER: &'static str = "[an error occurred while processing this directive]";

/// What stands in a page for a variable that is not set.
pub const UNDEFINED_ECHO: &'static str = "(none)";

/// How deeply files may take in others.
pub const MAX_INCLUDE_DEPTH: usize = 16;

/// Whether a file is a page with server-side directives.
pub open spec fn has_directives(path: Seq<char>, known: Seq<Seq<char>>) -> bool {
    match extension(path) {
        Some(e) => known.contains("."@ + lower(e)),
        None => false,
    }
}

/// Whether a file is a page with server-side directives.
pub fn applies(path: &str, ssi_extensions: &Vec<String>) -> (r: bool)
    ensures
        r == has_directives(path@, ssi_extensions.deep_view()),
{
    match extension_of(path) {
        Some(e) => {
            let mut ext = ".".to_owned();
            ext.append(lowered(e.as_str()).as_str());
            let ghost all = ssi_extensions.deep_view();
            let n: usize = ssi_extensions.len();
            let mut i: usize = 0;
            while i < n
                invariant
                    i <= n,
                    n == ssi_extensions@.len(),
                    all == ssi_extensions.deep_view(),
                    ext@ == "."@ + lower(e@),
                    extension(path@) == Some(e@),
                    forall|j: int| 0 <= j < i ==> #[trigger] all[j] != ext@,
                decreases n - i,
            {
                assert(all[i as int] == ssi_extensions@[i as int]@);
                if ssi_extensions[i].as_str().eq(ext.as_str()) {
                    return true;
                }
                i = i + 1;
            }
            false
        },
        None => false,
    }
}

// ---------------------------------------------------------------------------
// Variables of a page
// ---------------------------------------------------------------------------

/// Variables together with those of header fields.
pub open spec fn with_fields(
    m: Map<Seq<char>, Seq<char>>,
    p: Seq<(Seq<char>, Seq<char>)>,
) -> Map<Seq<char>, Seq<char>>
    decreases p.len(),
{
    if p.len() == 0 {
        m
    } else {
        with_fields(m, p.drop_last()).insert(header_variable(p.last().0), p.last().1)
    }
}

/// The variables that say what a page is rendered for, before those of header
/// fields.
pub open spec fn server_vars(
    path: Seq<char>,
    base: Seq<char>,
    q: RequestView,
    opts: ResolvedView,
    client: Seq<char>,
) -> Map<Seq<char>, Seq<char>> {
    let m = Map::<Seq<char>, Seq<char>>::empty().insert("REQUEST_METHOD"@, q.method).insert(
        "QUERY_STRING"@,
        after(q.path, '?'),
    ).insert("SERVER_PROTOCOL"@, q.version).insert(
        "SERVER_NAME"@,
        match opts.fqdn {
            Some(f) => f,
            None => "localhost"@,
        },
    ).insert("SERVER_PORT"@, decimal(opts.port as int)).insert(
        "SERVER_SOFTWARE"@,
        "cashttpd/"@ + VERSION@,
    ).insert("GATEWAY_INTERFACE"@, "CGI/1.1"@).insert("REMOTE_ADDR"@, client_parts(client).0).insert(
        "REMOTE_PORT"@,
        client_parts(client).1,
    ).insert("DOCUMENT_ROOT"@, base).insert("SCRIPT_FILENAME"@, path);
    if opts.tls_enabled {
        m.insert("HTTPS"@, "on"@)
    } else {
        m
    }
}

/// The variables that a page starts with.
pub open spec fn first_vars(
    path: Seq<char>,
    base: Seq<char>,
    q: RequestView,
    opts: ResolvedView,
    client: Seq<char>,
    modified: u64,
    now: u64,
) -> Map<Seq<char>, Seq<char>> {
    with_fields(server_vars(path, base, q, opts, client), pairs_of(q.headers)).insert(
        "DOCUMENT_NAME"@,
        match file_name(path) {
            Some(f) => f,
            None => ""@,
        },
    ).insert("DOCUMENT_URI"@, plain_path(before(q.path, '?'))).insert(
        "LAST_MODIFIED"@,
        http_date(modified as int),
    ).insert("DATE_GMT"@, http_date(now as int)).insert("DATE_LOCAL"@, http_date(now as int))
}

/// The variables that a page starts with, for a request at a time. Its file was
/// changed at another.
pub fn base_vars(
    path: &str,
    base_dir: &str,
    request: &Request,
    opts: &Resolved,
    client: &str,
    modified: u64,
    now: u64,
) -> (r: Table<String>)
    ensures
        r@ == first_vars(path@, base_dir@, request@, opts@, client@, modified, now),
{
    let (addr, port) = match rsplit_once_at(client, ':') {
        Some(p) => p,
        None => (client.to_owned(), "".to_owned()),
    };
    let mut software = "cashttpd/".to_owned();
    software.append(VERSION);
    let mut vars: Table<String> = Table::new();
    vars.insert("REQUEST_METHOD", request.method.clone());
    vars.insert("QUERY_STRING", after_char(request.path.as_str(), '?'));
    vars.insert("SERVER_PROTOCOL", request.version.clone());
    vars.insert(
        "SERVER_NAME",
        match &opts.fqdn {
            Some(f) => f.clone(),
            None => "localhost".to_owned(),
        },
    );
    vars.insert("SERVER_PORT", decimal_of(opts.port as u64));
    vars.insert("SERVER_SOFTWARE", software);
    vars.insert("GATEWAY_INTERFACE", "CGI/1.1".to_owned());
    vars.insert("REMOTE_ADDR", addr);
    vars.insert("REMOTE_PORT", port);
    vars.insert("DOCUMENT_ROOT", base_dir.to_owned());
    vars.insert("SCRIPT_FILENAME", path.to_owned());
    if opts.tls_enabled {
        vars.insert("HTTPS", "on".to_owned());
    }
    let ghost start = vars@;
    let n: usize = request.headers.len();
    let ghost p = request.headers.pairs();
    let mut i: usize = 0;
    assert(p.take(0) =~= Seq::empty());
    while i < n
        invariant
            i <= n,
            n == p.len(),
            p == request.headers.pairs(),
            vars@ == with_fields(start, p.take(i as int)),
        decreases n - i,
    {
        assert(p.take(i + 1).drop_last() =~= p.take(i as int));
        let mut name = "HTTP_".to_owned();
        let up = uppered(request.headers.key_at(i).as_str());
        name.append(replaced(up.as_str(), '-', "_").as_str());
        vars.insert(name.as_str(), request.headers.value_at(i).clone());
        i = i + 1;
    }
    assert(p.take(n as int) =~= p);
    vars.insert(
        "DOCUMENT_NAME",
        match file_name_of(path) {
            Some(f) => f,
            None => "".to_owned(),
        },
    );
    let raw = before_char(request.path.as_str(), '?');
    vars.insert("DOCUMENT_URI", percent_decode(raw.as_str()));
    vars.insert("LAST_MODIFIED", format_http_date(modified));
    vars.insert("DATE_GMT", format_http_date(now));
    vars.insert("DATE_LOCAL", format_http_date(now));
    vars
}

// ---------------------------------------------------------------------------
// Files that pages take in
// ---------------------------------------------------------------------------

/// What was found at a path.
#[derive(Debug)]
pub struct Included {
    /// What the path resolves to.
    pub path: String,
    /// Whether that is a file.
    pub is_file: bool,
    /// What the file holds, if it can be read.
    pub bytes: Option<Vec<u8>>,
}

/// What was found at a path.
pub struct IncludedView {
    pub path: Seq<char>,
    pub is_file: bool,
    pub bytes: Option<Seq<u8>>,
}

impl DeepView for Included {
    type V = IncludedView;

    open spec fn deep_view(&self) -> IncludedView {
        IncludedView {
            path: self.path@,
            is_file: self.is_file,
            bytes: match self.bytes {
                Some(b) => Some(b@),
                None => None,
            },
        }
    }
}

/// Where pages take files from.
pub struct Library {
    /// The served directory.
    pub root: String,
    /// What that resolves to, if it is there.
    pub real_root: Option<String>,
    /// What was looked up so far, by path.
    pub files: Table<Option<Included>>,
}

/// Where pages take files from.
pub struct LibraryView {
    pub root: Seq<char>,
    pub real_root: Option<Seq<char>>,
    pub files: Map<Seq<char>, Option<IncludedView>>,
}

impl View for Library {
    type V = LibraryView;

    open spec fn view(&self) -> LibraryView {
        LibraryView {
            root: self.root@,
            real_root: self.real_root.deep_view(),
            files: self.files@,
        }
    }
}

/// Whether what was found may be taken in: a file that lies in the served
/// directory.
pub open spec fn may_be_taken(l: LibraryView, f: IncludedView) -> bool {
    within(
        match l.real_root {
            Some(r) => r,
            None => l.root,
        },
        f.path,
    ) && f.is_file
}

/// The path that `virtual` names: from the served directory where it starts with
/// a slash, and otherwise from the directory of the page.
pub open spec fn virtual_path(l: LibraryView, target: Seq<char>, dir: Seq<char>) -> Seq<char> {
    let t = plain_path(before(target, '?'));
    match strip_prefix(t, "/"@) {
        Some(rest) => under_dir(l.root, rest),
        None => under_dir(dir, t),
    }
}

/// The path that `file` names, from the directory of the page. It may not start
/// at the root nor lead upwards.
pub open spec fn file_path(target: Seq<char>, dir: Seq<char>) -> Option<Seq<char>> {
    if is_absolute(target) || components(target).contains(".."@) {
        None
    } else {
        Some(under_dir(dir, target))
    }
}

fn leads_up(path: &str) -> (r: bool)
    ensures
        r == components(path@).contains(".."@),
{
    let c = components_of(path);
    let ghost all = c.deep_view();
    let n: usize = c.len();
    let mut i: usize = 0;
    while i < n
        invariant
            i <= n,
            n == c@.len(),
            all == c.deep_view(),
            all == components(path@),
            forall|j: int| 0 <= j < i ==> #[trigger] all[j] != ".."@,
        decreases n - i,
    {
        assert(all[i as int] == c@[i as int]@);
        if c[i].as_str().eq("..") {
            return true;
        }
        i = i + 1;
    }
    false
}

/// The path that an include names; none where it names none or two.
pub open spec fn wanted(
    l: LibraryView,
    a: Seq<(Seq<char>, Seq<char>)>,
    dir: Seq<char>,
    vars: Map<Seq<char>, Seq<char>>,
) -> Option<Seq<char>> {
    match (attribute(a, 0, "virtual"@), attribute(a, 0, "file"@)) {
        (Some(v), None) => Some(virtual_path(l, expanded(v, 0, vars), dir)),
        (None, Some(f)) => file_path(expanded(f, 0, vars), dir),
        _ => None,
    }
}

impl Library {
    fn resolve_virtual(&self, target: &str, dir: &str) -> (r: String)
        ensures
            r@ == virtual_path(self@, target@, dir@),
    {
        let raw = before_char(target, '?');
        let t = percent_decode(raw.as_str());
        match without_prefix(t.as_str(), "/") {
            Some(rest) => join_path(self.root.as_str(), rest.as_str()),
            None => join_path(dir, t.as_str()),
        }
    }

    fn wanted_path(
        &self,
        attrs: &Vec<(String, String)>,
        dir: &str,
        vars: &Table<String>,
    ) -> (r: Option<String>)
        ensures
            r.deep_view() == wanted(self@, attrs.deep_view(), dir@, vars@),
    {
        match (attr(attrs, "virtual"), attr(attrs, "file")) {
            (Some(v), None) => {
                let t = expand(v.as_str(), vars);
                Some(self.resolve_virtual(t.as_str(), dir))
            },
            (None, Some(f)) => {
                let t = expand(f.as_str(), vars);
                if absolute(t.as_str()) || leads_up(t.as_str()) {
                    None
                } else {
                    Some(join_path(dir, t.as_str()))
                }
            },
            _ => None,
        }
    }

    fn contained(&self, f: &Included) -> (r: bool)
        ensures
            r == may_be_taken(self@, f.deep_view()),
    {
        let root = match &self.real_root {
            Some(r) => r.as_str(),
            None => self.root.as_str(),
        };
        is_within(root, f.path.as_str()) && f.is_file
    }
}

// ---------------------------------------------------------------------------
// Rendering
// ---------------------------------------------------------------------------

/// A condition that is open: whether one of its branches was taken, and whether
/// the current one is.
#[derive(Debug, Clone, Copy, PartialEq, Eq, Structural)]
pub struct Branch {
    /// Whether a branch was taken.
    pub taken: bool,
    /// Whether the current branch is shown.
    pub emitting: bool,
}

/// A page as far as it is rendered.
#[verifier::ext_equal]
pub struct PageView {
    pub vars: Map<Seq<char>, Seq<char>>,
    pub stack: Seq<Branch>,
    pub out: Seq<char>,
}

/// Whether text is shown.
pub open spec fn shows(stack: Seq<Branch>) -> bool {
    stack.len() == 0 || stack.last().emitting
}

/// A page with more text.
pub open spec fn plus(p: PageView, text: Seq<char>) -> PageView {
    PageView { out: p.out + text, ..p }
}

/// A page with the mark of a failed directive.
pub open spec fn marked(p: PageView) -> PageView {
    plus(p, ERROR_MARKER@)
}

/// What a condition comes to; none where it is missing or malformed.
pub open spec fn condition(rest: Seq<char>, vars: Map<Seq<char>, Seq<char>>) -> Option<bool> {
    match attribute(attributes(rest, 0), 0, "expr"@) {
        Some(e) => truth(expanded(e, 0, vars)),
        None => None,
    }
}

/// A page after a branch with a condition was opened, where the condition is
/// looked at or not. One that comes to nothing is marked and not taken.
pub open spec fn branched(p: PageView, rest: Seq<char>, looked_at: bool, taken: bool) -> PageView {
    if looked_at {
        match condition(rest, p.vars) {
            Some(b) => PageView {
                stack: p.stack.push(Branch { taken: taken || b, emitting: b }),
                ..p
            },
            None => PageView {
                stack: p.stack.push(Branch { taken, emitting: false }),
                ..marked(p)
            },
        }
    } else {
        PageView { stack: p.stack.push(Branch { taken, emitting: false }), ..p }
    }
}

/// A page without its innermost open condition.
pub open spec fn closed(p: PageView) -> PageView {
    PageView { stack: p.stack.drop_last(), ..p }
}

/// A page after `echo`.
pub open spec fn echoed(p: PageView, a: Seq<(Seq<char>, Seq<char>)>) -> PageView {
    match attribute(a, 0, "var"@) {
        None => marked(p),
        Some(v) => {
            let name = trim(expanded(v, 0, p.vars));
            let value = if p.vars.contains_key(name) {
                p.vars[name]
            } else {
                UNDEFINED_ECHO@
            };
            match attribute(a, 0, "encoding"@) {
                None => plus(p, entities(value)),
                Some(e) => if lower(e) == "none"@ {
                    plus(p, value)
                } else if lower(e) == "url"@ {
                    plus(p, url_bytes(vstd::utf8::encode_utf8(value)))
                } else if lower(e) == "entity"@ {
                    plus(p, entities(value))
                } else {
                    marked(p)
                },
            }
        },
    }
}

/// A page after `set`.
pub open spec fn assigned(p: PageView, a: Seq<(Seq<char>, Seq<char>)>) -> PageView {
    match (attribute(a, 0, "var"@), attribute(a, 0, "value"@)) {
        (Some(v), Some(x)) => {
            let name = trim(expanded(v, 0, p.vars));
            if name.len() == 0 {
                marked(p)
            } else {
                PageView { vars: p.vars.insert(name, expanded(x, 0, p.vars)), ..p }
            }
        },
        _ => marked(p),
    }
}

/// A page after it took in a file. The file shares the variables of the page but
/// not its conditions.
pub open spec fn taken_in(
    l: LibraryView,
    a: Seq<(Seq<char>, Seq<char>)>,
    dir: Seq<char>,
    depth: int,
    p: PageView,
) -> Result<PageView, Seq<char>>
    decreases 20 - depth, 0int, 1int,
{
    if depth >= MAX_INCLUDE_DEPTH {
        Ok(marked(p))
    } else {
        match wanted(l, a, dir, p.vars) {
            None => Ok(marked(p)),
            Some(path) => if !l.files.contains_key(path) {
                Err(path)
            } else {
                match l.files[path] {
                    None => Ok(marked(p)),
                    Some(f) => if !may_be_taken(l, f) {
                        Ok(marked(p))
                    } else {
                        match f.bytes {
                            None => Ok(marked(p)),
                            Some(b) => match rendered(
                                l,
                                lossy_text(b),
                                0,
                                match parent(f.path) {
                                    Some(d) => d,
                                    None => l.root,
                                },
                                depth + 1,
                                PageView { stack: Seq::empty(), ..p },
                            ) {
                                Err(e) => Err(e),
                                Ok(q) => Ok(
                                    PageView {
                                        stack: p.stack,
                                        ..(if q.stack.len() > 0 {
                                            marked(q)
                                        } else {
                                            q
                                        })
                                    },
                                ),
                            },
                        }
                    },
                }
            },
        }
    }
}

/// A page after a directive.
pub open spec fn directed(
    l: LibraryView,
    text: Seq<char>,
    dir: Seq<char>,
    depth: int,
    p: PageView,
) -> Result<PageView, Seq<char>>
    decreases 20 - depth, 0int, 2int,
{
    let t = trim(text);
    let b = bare_end(t, 0);
    let name = lower(t.take(b));
    let rest = t.skip(b);
    if name == "if"@ {
        Ok(branched(p, rest, shows(p.stack), false))
    } else if name == "elif"@ {
        if p.stack.len() == 0 {
            Ok(marked(p))
        } else {
            let q = closed(p);
            let taken = p.stack.last().taken;
            Ok(branched(q, rest, !taken && shows(q.stack), taken))
        }
    } else if name == "else"@ {
        if p.stack.len() == 0 {
            Ok(marked(p))
        } else {
            let q = closed(p);
            Ok(
                PageView {
                    stack: q.stack.push(
                        Branch {
                            taken: true,
                            emitting: !p.stack.last().taken && shows(q.stack),
                        },
                    ),
                    ..q
                },
            )
        }
    } else if name == "endif"@ {
        if p.stack.len() == 0 {
            Ok(marked(p))
        } else {
            Ok(closed(p))
        }
    } else if !shows(p.stack) {
        Ok(p)
    } else if name == "include"@ {
        taken_in(l, attributes(rest, 0), dir, depth, p)
    } else if name == "echo"@ {
        Ok(echoed(p, attributes(rest, 0)))
    } else if name == "set"@ {
        Ok(assigned(p, attributes(rest, 0)))
    } else {
        Ok(marked(p))
    }
}

/// A page with text where text is shown.
pub open spec fn shown(p: PageView, text: Seq<char>) -> PageView {
    if shows(p.stack) {
        plus(p, text)
    } else {
        p
    }
}

/// A page after a source from a place on; or the path of a file that has to be
/// looked up. A directive without an end takes the rest of the source with it.
pub open spec fn rendered(
    l: LibraryView,
    src: Seq<char>,
    i: int,
    dir: Seq<char>,
    depth: int,
    p: PageView,
) -> Result<PageView, Seq<char>>
    decreases 20 - depth, src.len() - i, 3int,
{
    if i < 0 || i > src.len() {
        Ok(p)
    } else {
        match find(src, "<!--#"@, i) {
            None => Ok(shown(p, src.skip(i))),
            Some(k) => if k < i || k + 5 > src.len() {
                Ok(p)
            } else {
                let q = shown(p, src.subrange(i, k));
                match find(src, "-->"@, k + 5) {
                    None => Ok(marked(q)),
                    Some(e) => if e < k + 5 || e + 3 > src.len() {
                        Ok(q)
                    } else {
                        match directed(l, src.subrange(k + 5, e), dir, depth, q) {
                            Err(x) => Err(x),
                            Ok(r) => rendered(l, src, e + 3, dir, depth, r),
                        }
                    },
                }
            },
        }
    }
}

/// A page that is being rendered.
pub struct Renderer {
    /// The variables.
    pub vars: Table<String>,
    /// The open conditions.
    pub stack: Vec<Branch>,
    /// The text so far.
    pub out: String,
}

impl View for Renderer {
    type V = PageView;

    open spec fn view(&self) -> PageView {
        PageView { vars: self.vars@, stack: self.stack@, out: self.out@ }
    }
}

impl Renderer {
    /// A page without text.
    pub fn new(vars: Table<String>) -> (r: Renderer)
        ensures
            r@ == (PageView { vars: vars@, stack: Seq::empty(), out: Seq::empty() }),
    {
        let out = String::new();
        assert(out@ =~= Seq::empty());
        Renderer { vars, stack: Vec::new(), out }
    }

    fn emitting(&self) -> (r: bool)
        ensures
            r == shows(self@.stack),
    {
        let n: usize = self.stack.len();
        n == 0 || self.stack[n - 1].emitting
    }

    fn mark(&mut self)
        ensures
            final(self)@ == marked(old(self)@),
    {
        self.out.append(ERROR_MARKER);
    }

    fn condition_of(&self, rest: &str) -> (r: Option<bool>)
        ensures
            r == condition(rest@, self@.vars),
    {
        let attrs = parse_attributes(rest);
        match attr(&attrs, "expr") {
            Some(e) => {
                let x = expand(e.as_str(), &self.vars);
                eval_expr(x.as_str())
            },
            None => None,
        }
    }

    fn branch(&mut self, rest: &str, looked_at: bool, taken: bool)
        ensures
            final(self)@ == branched(old(self)@, rest@, looked_at, taken),
    {
        if looked_at {
            match self.condition_of(rest) {
                Some(b) => {
                    self.stack.push(Branch { taken: taken || b, emitting: b });
                },
                None => {
                    self.mark();
                    self.stack.push(Branch { taken, emitting: false });
                },
            }
        } else {
            self.stack.push(Branch { taken, emitting: false });
        }
    }

    fn echo(&mut self, attrs: &Vec<(String, String)>)
        ensures
            final(self)@ == echoed(old(self)@, attrs.deep_view()),
    {
        let var = match attr(attrs, "var") {
            None => {
                self.mark();
                return ;
            },
            Some(v) => v,
        };
        let full = expand(var.as_str(), &self.vars);
        let name = trimmed(full.as_str());
        let value = self.vars.get_or(name.as_str(), UNDEFINED_ECHO);
        match attr(attrs, "encoding") {
            None => {
                self.out.append(entity_encode(value.as_str()).as_str());
            },
            Some(e) => {
                let e = lowered(e.as_str());
                if e.as_str().eq("none") {
                    self.out.append(value.as_str());
                } else if e.as_str().eq("url") {
                    self.out.append(url_encode(value.as_str()).as_str());
                } else if e.as_str().eq("entity") {
                    self.out.append(entity_encode(value.as_str()).as_str());
                } else {
                    self.mark();
                }
            },
        }
    }

    fn set(&mut self, attrs: &Vec<(String, String)>)
        ensures
            final(self)@ == assigned(old(self)@, attrs.deep_view()),
    {
        match (attr(attrs, "var"), attr(attrs, "value")) {
            (Some(v), Some(x)) => {
                let full = expand(v.as_str(), &self.vars);
                let name = trimmed(full.as_str());
                if name.as_str().is_empty() {
                    self.mark();
                } else {
                    let value = expand(x.as_str(), &self.vars);
                    self.vars.insert(name.as_str(), value);
                }
            },
            _ => {
                self.mark();
            },
        }
    }

    fn take_in(
        &mut self,
        library: &Library,
        attrs: &Vec<(String, String)>,
        dir: &str,
        depth: usize,
    ) -> (r: Result<(), String>)
        requires
            depth <= MAX_INCLUDE_DEPTH,
        ensures
            r is Ok ==> taken_in(library@, attrs.deep_view(), dir@, depth as int, old(self)@) == Ok::<
                PageView,
                Seq<char>,
            >(final(self)@),
            r matches Err(e) ==> taken_in(
                library@,
                attrs.deep_view(),
                dir@,
                depth as int,
                old(self)@,
            ) == Err::<PageView, Seq<char>>(e@),
        decreases 20 - depth, 0int, 1int,
    {
        if depth >= MAX_INCLUDE_DEPTH {
            self.mark();
            return Ok(());
        }
        let path = match library.wanted_path(attrs, dir, &self.vars) {
            None => {
                self.mark();
                return Ok(());
            },
            Some(p) => p,
        };
        let found = match library.files.get(path.as_str()) {
            None => {
                return Err(path);
            },
            Some(f) => f,
        };
        let f = match found {
            None => {
                self.mark();
                return Ok(());
            },
            Some(f) => f,
        };
        if !library.contained(f) {
            self.mark();
            return Ok(());
        }
        let bytes = match &f.bytes {
            None => {
                self.mark();
                return Ok(());
            },
            Some(b) => b,
        };
        let text = lossy_string(bytes.as_slice());
        let inner = match parent_of(f.path.as_str()) {
            Some(d) => d,
            None => library.root.clone(),
        };
        let mut outer: Vec<Branch> = Vec::new();
        std::mem::swap(&mut outer, &mut self.stack);
        match self.render_source(library, text.as_str(), inner.as_str(), depth + 1) {
            Ok(_) => {
                if self.stack.len() > 0 {
                    self.mark();
                }
                self.stack = outer;
                Ok(())
            },
            Err(e) => Err(e),
        }
    }

    fn directive(
        &mut self,
        library: &Library,
        text: &str,
        dir: &str,
        depth: usize,
    ) -> (r: Result<(), String>)
        requires
            depth <= MAX_INCLUDE_DEPTH,
        ensures
            r is Ok ==> directed(library@, text@, dir@, depth as int, old(self)@) == Ok::<
                PageView,
                Seq<char>,
            >(final(self)@),
            r matches Err(e) ==> directed(library@, text@, dir@, depth as int, old(self)@) == Err::<
                PageView,
                Seq<char>,
            >(e@),
        decreases 20 - depth, 0int, 2int,
    {
        let t = trimmed(text);
        let chars = chars_of(t.as_str());
        let v = chars.as_slice();
        let n: usize = v.len();
        let mut b: usize = 0;
        while b < n && !space(v[b])
            invariant
                b <= n,
                n == v@.len(),
                v@ == t@,
                bare_end(t@, 0) == bare_end(t@, b as int),
            decreases n - b,
        {
            b = b + 1;
        }
        let word = string_of(v, 0, b);
        let rest = string_of(v, b, n);
        assert(word@ =~= t@.take(b as int));
        assert(rest@ =~= t@.skip(b as int));
        let name = lowered(word.as_str());
        let rest = rest.as_str();
        if name.as_str().eq("if") {
            let looked_at = self.emitting();
            self.branch(rest, looked_at, false);
            return Ok(());
        }
        if name.as_str().eq("elif") {
            match self.stack.pop() {
                None => {
                    self.mark();
                },
                Some(current) => {
                    let looked_at = !current.taken && self.emitting();
                    self.branch(rest, looked_at, current.taken);
                },
            }
            return Ok(());
        }
        if name.as_str().eq("else") {
            match self.stack.pop() {
                None => {
                    self.mark();
                },
                Some(current) => {
                    let emitting = !current.taken && self.emitting();
                    self.stack.push(Branch { taken: true, emitting });
                },
            }
            return Ok(());
        }
        if name.as_str().eq("endif") {
            if self.stack.pop().is_none() {
                self.mark();
            }
            return Ok(());
        }
        if !self.emitting() {
            return Ok(());
        }
        let attrs = parse_attributes(rest);
        if name.as_str().eq("include") {
            return self.take_in(library, &attrs, dir, depth);
        }
        if name.as_str().eq("echo") {
            self.echo(&attrs);
        } else if name.as_str().eq("set") {
            self.set(&attrs);
        } else {
            self.mark();
        }
        Ok(())
    }

    /// Renders a source from a directory, at a depth of files that take in
    /// others. An error is the path of a file that has to be looked up.
    pub fn render_source(
        &mut self,
        library: &Library,
        source: &str,
        dir: &str,
        depth: usize,
    ) -> (r: Result<(), String>)
        requires
            depth <= MAX_INCLUDE_DEPTH,
        ensures
            r is Ok ==> rendered(library@, source@, 0, dir@, depth as int, old(self)@) == Ok::<
                PageView,
                Seq<char>,
            >(final(self)@),
            r matches Err(e) ==> rendered(library@, source@, 0, dir@, depth as int, old(self)@)
                == Err::<PageView, Seq<char>>(e@),
        decreases 20 - depth, source@.len(), 3int,
    {
        let chars = chars_of(source);
        let v = chars.as_slice();
        let n: usize = v.len();
        let open = chars_of("<!--#");
        let close = chars_of("-->");
        proof {
            reveal_strlit("<!--#");
            reveal_strlit("-->");
        }
        let ghost start = self@;
        let mut i: usize = 0;
        loop
            invariant
                i <= n,
                n == v@.len(),
                v@ == source@,
                open@ == "<!--#"@,
                close@ == "-->"@,
                open@.len() == 5,
                close@.len() == 3,
                depth <= MAX_INCLUDE_DEPTH,
                start == old(self)@,
                rendered(library@, source@, 0, dir@, depth as int, start) == rendered(
                    library@,
                    source@,
                    i as int,
                    dir@,
                    depth as int,
                    self@,
                ),
            decreases n - i,
        {
            match find_in(v, open.as_slice(), i) {
                None => {
                    if self.emitting() {
                        let tail = string_of(v, i, n);
                        assert(tail@ =~= source@.skip(i as int));
                        self.out.append(tail.as_str());
                    }
                    return Ok(());
                },
                Some(k) => {
                    if self.emitting() {
                        self.out.append(string_of(v, i, k).as_str());
                    }
                    match find_in(v, close.as_slice(), k + 5) {
                        None => {
                            self.mark();
                            return Ok(());
                        },
                        Some(e) => {
                            let text = string_of(v, k + 5, e);
                            match self.directive(library, text.as_str(), dir, depth) {
                                Ok(_) => {},
                                Err(x) => {
                                    return Err(x);
                                },
                            }
                            i = e + 3;
                        },
                    }
                },
            }
        }
    }
}

/// What a page comes to, whose file lies at a path and holds bytes if it can be
/// read.
pub open spec fn document(
    l: LibraryView,
    path: Seq<char>,
    bytes: Option<Seq<u8>>,
    vars: Map<Seq<char>, Seq<char>>,
) -> Result<Seq<char>, Seq<char>> {
    match bytes {
        None => Ok(ERROR_MARKER@),
        Some(b) => match rendered(
            l,
            lossy_text(b),
            0,
            match parent(path) {
                Some(d) => d,
                None => l.root,
            },
            0,
            PageView { vars, stack: Seq::empty(), out: Seq::empty() },
        ) {
            Err(e) => Err(e),
            Ok(p) => Ok(
                if p.stack.len() > 0 {
                    marked(p).out
                } else {
                    p.out
                },
            ),
        },
    }
}

/// Renders the page at a path. An error is the path of a file that has to be
/// looked up first.
pub fn render_document(
    library: &Library,
    path: &str,
    bytes: &Option<Vec<u8>>,
    vars: Table<String>,
) -> (r: Result<String, String>)
    ensures
        match r {
            Ok(s) => document(
                library@,
                path@,
                match *bytes {
                    Some(b) => Some(b@),
                    None => None,
                },
                vars@,
            ) == Ok::<Seq<char>, Seq<char>>(s@),
            Err(e) => document(
                library@,
                path@,
                match *bytes {
                    Some(b) => Some(b@),
                    None => None,
                },
                vars@,
            ) == Err::<Seq<char>, Seq<char>>(e@),
        },
{
    let b = match bytes {
        None => {
            return Ok(ERROR_MARKER.to_owned());
        },
        Some(b) => b,
    };
    let text = lossy_string(b.as_slice());
    let dir = match parent_of(path) {
        Some(d) => d,
        None => library.root.clone(),
    };
    let mut page = Renderer::new(vars);
    match page.render_source(library, text.as_str(), dir.as_str(), 0) {
        Ok(_) => {
            if page.stack.len() > 0 {
                page.mark();
            }
            Ok(page.out)
        },
        Err(e) => Err(e),
    }
}

/// The response with a rendered page.
pub fn respond_rendered(text: &str, head_only: bool) -> (r: Response)
    ensures
        r@ == page_response(200, "OK"@, text@, head_only),
{
    respond_page(200, "OK", text, head_only)
}

// ---------------------------------------------------------------------------
// Laws
// ---------------------------------------------------------------------------

/// A file that lies outside the served directory is never taken in, however it
/// is named: the directive fails.
pub proof fn outside_files_are_refused(
    l: LibraryView,
    a: Seq<(Seq<char>, Seq<char>)>,
    dir: Seq<char>,
    depth: int,
    p: PageView,
    path: Seq<char>,
    f: IncludedView,
)
    requires
        wanted(l, a, dir, p.vars) == Some(path),
        l.files.contains_key(path),
        l.files[path] == Some(f),
        !within(
            match l.real_root {
                Some(r) => r,
                None => l.root,
            },
            f.path,
        ),
    ensures
        taken_in(l, a, dir, depth, p) == Ok::<PageView, Seq<char>>(marked(p)),
{
}

/// Files that take in each other come to an end: below a certain depth none is
/// taken in.
pub proof fn cycles_come_to_an_end(
    l: LibraryView,
    a: Seq<(Seq<char>, Seq<char>)>,
    dir: Seq<char>,
    depth: int,
    p: PageView,
)
    requires
        depth >= MAX_INCLUDE_DEPTH,
    ensures
        taken_in(l, a, dir, depth, p) == Ok::<PageView, Seq<char>>(marked(p)),
{
}

/// The word that a directive starts with, in lower case.
pub open spec fn directive_name(text: Seq<char>) -> Seq<char> {
    lower(trim(text).take(bare_end(trim(text), 0)))
}

/// No directive runs a program: `exec` is as unknown as any other word.
pub proof fn nothing_is_executed(
    l: LibraryView,
    text: Seq<char>,
    dir: Seq<char>,
    depth: int,
    p: PageView,
)
    requires
        directive_name(text) == "exec"@,
        shows(p.stack),
    ensures
        directed(l, text, dir, depth, p) == Ok::<PageView, Seq<char>>(marked(p)),
{
    reveal_strlit("exec");
    reveal_strlit("if");
    reveal_strlit("elif");
    reveal_strlit("else");
    reveal_strlit("endif");
    reveal_strlit("include");
    reveal_strlit("echo");
    reveal_strlit("set");
    assert("exec"@[1] != "elif"@[1] && "exec"@[1] != "else"@[1] && "exec"@[1] != "echo"@[1]);
}

/// Whether a directive opens, changes or closes a condition.
pub open spec fn is_conditional(name: Seq<char>) -> bool {
    name == "if"@ || name == "elif"@ || name == "else"@ || name == "endif"@
}

/// In a branch that is not shown, a directive that is no condition does nothing.
pub proof fn hidden_directives_do_nothing(
    l: LibraryView,
    text: Seq<char>,
    dir: Seq<char>,
    depth: int,
    p: PageView,
)
    requires
        !shows(p.stack),
        !is_conditional(directive_name(text)),
    ensures
        directed(l, text, dir, depth, p) == Ok::<PageView, Seq<char>>(p),
{
}

/// A source without directives is shown as it is.
pub proof fn plain_sources_stay(
    l: LibraryView,
    src: Seq<char>,
    dir: Seq<char>,
    depth: int,
    p: PageView,
)
    requires
        find(src, "<!--#"@, 0) is None,
        shows(p.stack),
    ensures
        rendered(l, src, 0, dir, depth, p) == Ok::<PageView, Seq<char>>(plus(p, src)),
{
    assert(src.skip(0) =~= src);
}

} // verus!
