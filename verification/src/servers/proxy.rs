//! The development server that requests are handed to.

use vstd::prelude::*;

use crate::configs::{ProxyLayer, ProxyLayerView};
use crate::text::{
    contains, contains_str, eq_ignore_case, lower, lowered, same_letters, split_words, words,
};

verus! {

/// A framework whose development server is known.
#[derive(Debug, Clone, Copy)]
pub struct FrameworkProfile {
    /// Its name.
    pub name: &'static str,
    /// The command that starts its server.
    pub command: &'static str,
    /// Where its server listens.
    pub upstream: &'static str,
    /// The paths that its server gets.
    pub path_prefix: &'static str,
}

/// A development server to hand requests to.
#[derive(Debug, Clone, PartialEq, Eq)]
pub struct ProxyTarget {
    /// The name of the framework.
    pub kind: String,
    /// The command that starts it.
    pub command: String,
    /// Where it listens.
    pub upstream: String,
    /// The paths that it gets.
    pub path_prefix: String,
}

/// A development server to hand requests to.
pub struct ProxyTargetView {
    pub kind: Seq<char>,
    pub command: Seq<char>,
    pub upstream: Seq<char>,
    pub path_prefix: Seq<char>,
}

impl DeepView for ProxyTarget {
    type V = ProxyTargetView;

    open spec fn deep_view(&self) -> ProxyTargetView {
        ProxyTargetView {
            kind: self.kind@,
            command: self.command@,
            upstream: self.upstream@,
            path_prefix: self.path_prefix@,
        }
    }
}

impl FrameworkProfile {
    /// The server of the framework.
    pub open spec fn target(self) -> ProxyTargetView {
        ProxyTargetView {
            kind: self.name@,
            command: self.command@,
            upstream: self.upstream@,
            path_prefix: self.path_prefix@,
        }
    }
}

/// A server with a name, a command and an address, which gets all paths.
pub open spec fn served(name: Seq<char>, command: Seq<char>, upstream: Seq<char>) -> ProxyTargetView {
    ProxyTargetView { kind: name, command, upstream, path_prefix: "/"@ }
}

/// The servers of the known frameworks.
pub open spec fn profiles() -> Seq<ProxyTargetView> {
    seq![
        served("vite"@, "npm run dev"@, "127.0.0.1:5173"@),
        served("bun"@, "bun run dev"@, "127.0.0.1:3000"@),
        served("deno"@, "deno task dev"@, "127.0.0.1:8000"@),
        served("node"@, "npm run dev"@, "127.0.0.1:3000"@),
        served("rails"@, "bundle exec rails server -b 127.0.0.1 -p 3000"@, "127.0.0.1:3000"@),
        served("django"@, "python3 manage.py runserver 127.0.0.1:8000"@, "127.0.0.1:8000"@),
        served("flask"@, "flask run --host 127.0.0.1 --port 5000"@, "127.0.0.1:5000"@),
        served("fastapi"@, "uvicorn main:app --host 127.0.0.1 --port 8000"@, "127.0.0.1:8000"@),
    ]
}

/// The first server of a list with a name, in whatever case, from a place on.
pub open spec fn named(p: Seq<ProxyTargetView>, i: int, name: Seq<char>) -> Option<ProxyTargetView>
    decreases p.len() - i,
{
    if i < 0 || i >= p.len() {
        None
    } else if same_letters(p[i].kind, name) {
        Some(p[i])
    } else {
        named(p, i + 1, name)
    }
}

/// The server of a profile, if there is one.
pub open spec fn target_of(p: Option<FrameworkProfile>) -> Option<ProxyTargetView> {
    match p {
        Some(f) => Some(f.target()),
        None => None,
    }
}

fn profile(name: &'static str, command: &'static str, upstream: &'static str) -> (r:
    FrameworkProfile)
    ensures
        r.target() == served(name@, command@, upstream@),
{
    FrameworkProfile { name, command, upstream, path_prefix: "/" }
}

fn known_profiles() -> (r: Vec<FrameworkProfile>)
    ensures
        r@.len() == profiles().len(),
        forall|i: int| 0 <= i < r@.len() ==> (#[trigger] r@[i]).target() == profiles()[i],
{
    let mut v: Vec<FrameworkProfile> = Vec::new();
    v.push(profile("vite", "npm run dev", "127.0.0.1:5173"));
    v.push(profile("bun", "bun run dev", "127.0.0.1:3000"));
    v.push(profile("deno", "deno task dev", "127.0.0.1:8000"));
    v.push(profile("node", "npm run dev", "127.0.0.1:3000"));
    v.push(profile("rails", "bundle exec rails server -b 127.0.0.1 -p 3000", "127.0.0.1:3000"));
    v.push(profile("django", "python3 manage.py runserver 127.0.0.1:8000", "127.0.0.1:8000"));
    v.push(profile("flask", "flask run --host 127.0.0.1 --port 5000", "127.0.0.1:5000"));
    v.push(profile("fastapi", "uvicorn main:app --host 127.0.0.1 --port 8000", "127.0.0.1:8000"));
    v
}

/// The known framework of a name, in whatever case.
pub fn find_profile(name: &str) -> (r: Option<FrameworkProfile>)
    ensures
        target_of(r) == named(profiles(), 0, name@),
{
    let v = known_profiles();
    let n: usize = v.len();
    let mut i: usize = 0;
    while i < n
        invariant
            i <= n,
            n == v@.len(),
            n == profiles().len(),
            forall|j: int| 0 <= j < n ==> (#[trigger] v@[j]).target() == profiles()[j],
            named(profiles(), 0, name@) == named(profiles(), i as int, name@),
        decreases n - i,
    {
        let p = v[i];
        assert(p.target() == profiles()[i as int]);
        if eq_ignore_case(p.name, name) {
            return Some(p);
        }
        i = i + 1;
    }
    None
}

// ---------------------------------------------------------------------------
// Detection
// ---------------------------------------------------------------------------

/// What a project directory holds.
pub struct Markers {
    /// The names of its files.
    pub files: Vec<String>,
    /// What `package.json` says, if it can be read as text.
    pub package_json: Option<String>,
    /// What `pyproject.toml` says, if it can be read as text.
    pub pyproject: Option<String>,
    /// What `requirements.txt` says, if it can be read as text.
    pub requirements: Option<String>,
}

/// What a project directory holds.
pub struct MarkersView {
    pub files: Seq<Seq<char>>,
    pub package_json: Option<Seq<char>>,
    pub pyproject: Option<Seq<char>>,
    pub requirements: Option<Seq<char>>,
}

impl View for Markers {
    type V = MarkersView;

    open spec fn view(&self) -> MarkersView {
        MarkersView {
            files: self.files.deep_view(),
            package_json: self.package_json.deep_view(),
            pyproject: self.pyproject.deep_view(),
            requirements: self.requirements.deep_view(),
        }
    }
}

/// Whether `package.json` has a name in quotation marks.
pub open spec fn package_names(m: MarkersView, name: Seq<char>) -> bool {
    m.package_json is Some && contains(m.package_json->0, "\""@ + name + "\""@)
}

/// Whether the lists of what a Python project needs have a name, in whatever
/// case.
pub open spec fn python_needs(m: MarkersView, name: Seq<char>) -> bool {
    (m.pyproject is Some && contains(lower(m.pyproject->0), name)) || (m.requirements is Some
        && contains(lower(m.requirements->0), name))
}

/// The name of the framework that a project directory tells of: the most
/// particular one.
pub open spec fn framework(m: MarkersView) -> Option<Seq<char>> {
    let has = |name: Seq<char>| m.files.contains(name);
    if has("vite.config.js"@) || has("vite.config.ts"@) || has("vite.config.mjs"@) || has(
        "vite.config.mts"@,
    ) || package_names(m, "vite"@) {
        Some("vite"@)
    } else if has("bun.lockb"@) && has("package.json"@) {
        Some("bun"@)
    } else if has("deno.json"@) || has("deno.jsonc"@) {
        Some("deno"@)
    } else if has("package.json"@) && (package_names(m, "dev"@) || package_names(m, "start"@)) {
        Some("node"@)
    } else if has("Gemfile"@) && has("config.ru"@) {
        Some("rails"@)
    } else if has("manage.py"@) {
        Some("django"@)
    } else if (has("pyproject.toml"@) || has("requirements.txt"@)) && python_needs(m, "fastapi"@) {
        Some("fastapi"@)
    } else if (has("pyproject.toml"@) || has("requirements.txt"@)) && python_needs(m, "flask"@) {
        Some("flask"@)
    } else {
        None
    }
}

/// The server that a project directory tells of.
pub open spec fn detected(m: MarkersView) -> Option<ProxyTargetView> {
    match framework(m) {
        Some(name) => named(profiles(), 0, name),
        None => None,
    }
}

impl Markers {
    fn has_file(&self, name: &str) -> (r: bool)
        ensures
            r == self@.files.contains(name@),
    {
        let ghost all = self.files.deep_view();
        let n: usize = self.files.len();
        let mut i: usize = 0;
        while i < n
            invariant
                i <= n,
                n == self.files@.len(),
                all == self.files.deep_view(),
                forall|j: int| 0 <= j < i ==> all[j] != name@,
            decreases n - i,
        {
            assert(all[i as int] == self.files@[i as int]@);
            if self.files[i].as_str().eq(name) {
                assert(all.contains(name@));
                return true;
            }
            i = i + 1;
        }
        false
    }

    fn package_json_mentions(&self, name: &str) -> (r: bool)
        ensures
            r == package_names(self@, name@),
    {
        match &self.package_json {
            None => false,
            Some(text) => {
                let mut quoted = "\"".to_owned();
                quoted.append(name);
                quoted.append("\"");
                contains_str(text.as_str(), quoted.as_str())
            },
        }
    }

    fn python_deps_mention(&self, name: &str) -> (r: bool)
        ensures
            r == python_needs(self@, name@),
    {
        if let Some(text) = &self.pyproject {
            if contains_str(lowered(text.as_str()).as_str(), name) {
                return true;
            }
        }
        match &self.requirements {
            Some(text) => contains_str(lowered(text.as_str()).as_str(), name),
            None => false,
        }
    }
}

/// The names of the files that tell of a framework.
pub fn marker_files() -> (r: Vec<&'static str>)
    ensures
        forall|name: Seq<char>|
            (exists|i: int| 0 <= i < r@.len() && (#[trigger] r@[i])@ == name) == is_marker(name),
{
    let v: Vec<&'static str> = vec![
        "vite.config.js",
        "vite.config.ts",
        "vite.config.mjs",
        "vite.config.mts",
        "package.json",
        "bun.lockb",
        "deno.json",
        "deno.jsonc",
        "Gemfile",
        "config.ru",
        "manage.py",
        "pyproject.toml",
        "requirements.txt",
    ];
    assert(v@[0]@ == "vite.config.js"@ && v@[1]@ == "vite.config.ts"@ && v@[2]@
        == "vite.config.mjs"@ && v@[3]@ == "vite.config.mts"@ && v@[4]@ == "package.json"@ && v@[5]@
        == "bun.lockb"@ && v@[6]@ == "deno.json"@ && v@[7]@ == "deno.jsonc"@ && v@[8]@
        == "Gemfile"@ && v@[9]@ == "config.ru"@ && v@[10]@ == "manage.py"@ && v@[11]@
        == "pyproject.toml"@ && v@[12]@ == "requirements.txt"@);
    v
}

/// Whether a file of a name tells of a framework.
pub open spec fn is_marker(name: Seq<char>) -> bool {
    name == "vite.config.js"@ || name == "vite.config.ts"@ || name == "vite.config.mjs"@ || name
        == "vite.config.mts"@ || name == "package.json"@ || name == "bun.lockb"@ || name
        == "deno.json"@ || name == "deno.jsonc"@ || name == "Gemfile"@ || name == "config.ru"@
        || name == "manage.py"@ || name == "pyproject.toml"@ || name == "requirements.txt"@
}

/// The framework that a project directory tells of.
pub fn detect(markers: &Markers) -> (r: Option<FrameworkProfile>)
    ensures
        target_of(r) == detected(markers@),
{
    if markers.has_file("vite.config.js") || markers.has_file("vite.config.ts") || markers.has_file(
        "vite.config.mjs",
    ) || markers.has_file("vite.config.mts") || markers.package_json_mentions("vite") {
        return find_profile("vite");
    }
    if markers.has_file("bun.lockb") && markers.has_file("package.json") {
        return find_profile("bun");
    }
    if markers.has_file("deno.json") || markers.has_file("deno.jsonc") {
        return find_profile("deno");
    }
    if markers.has_file("package.json") && (markers.package_json_mentions("dev")
        || markers.package_json_mentions("start")) {
        return find_profile("node");
    }
    if markers.has_file("Gemfile") && markers.has_file("config.ru") {
        return find_profile("rails");
    }
    if markers.has_file("manage.py") {
        return find_profile("django");
    }
    if markers.has_file("pyproject.toml") || markers.has_file("requirements.txt") {
        if markers.python_deps_mention("fastapi") {
            return find_profile("fastapi");
        }
        if markers.python_deps_mention("flask") {
            return find_profile("flask");
        }
    }
    None
}

/// The server that requests go to: what the configuration sets counts, and for
/// the rest the framework that it names or else the one that the directory tells
/// of. There is none where it is switched off, or where its command or its
/// address is unknown.
pub open spec fn resolved_target(m: MarkersView, layer: ProxyLayerView) -> Option<ProxyTargetView> {
    if layer.enabled == Some(false) {
        None
    } else {
        let p = match layer.kind {
            Some(k) => named(profiles(), 0, k),
            None => detected(m),
        };
        let command = match layer.command {
            Some(c) => Some(c),
            None => match p {
                Some(t) => Some(t.command),
                None => None,
            },
        };
        let upstream = match layer.upstream {
            Some(u) => Some(u),
            None => match p {
                Some(t) => Some(t.upstream),
                None => None,
            },
        };
        match (command, upstream) {
            (Some(c), Some(u)) => Some(
                ProxyTargetView {
                    kind: match layer.kind {
                        Some(k) => k,
                        None => match p {
                            Some(t) => t.kind,
                            None => "custom"@,
                        },
                    },
                    command: c,
                    upstream: u,
                    path_prefix: match layer.path_prefix {
                        Some(x) => x,
                        None => match p {
                            Some(t) => t.path_prefix,
                            None => "/"@,
                        },
                    },
                },
            ),
            _ => None,
        }
    }
}

/// The server that requests go to.
pub fn resolve_proxy_target(markers: &Markers, layer: &ProxyLayer) -> (r: Option<ProxyTarget>)
    ensures
        r.deep_view() == resolved_target(markers@, layer@),
{
    if let Some(on) = layer.enabled {
        if !on {
            return None;
        }
    }
    let profile = match &layer.kind {
        Some(k) => find_profile(k.as_str()),
        None => detect(markers),
    };
    let kind = match &layer.kind {
        Some(k) => k.clone(),
        None => match profile {
            Some(p) => p.name.to_owned(),
            None => "custom".to_owned(),
        },
    };
    let command = match &layer.command {
        Some(c) => c.clone(),
        None => match profile {
            Some(p) => p.command.to_owned(),
            None => {
                return None;
            },
        },
    };
    let upstream = match &layer.upstream {
        Some(u) => u.clone(),
        None => match profile {
            Some(p) => p.upstream.to_owned(),
            None => {
                return None;
            },
        },
    };
    let path_prefix = match &layer.path_prefix {
        Some(x) => x.clone(),
        None => match profile {
            Some(p) => p.path_prefix.to_owned(),
            None => "/".to_owned(),
        },
    };
    Some(ProxyTarget { kind, command, upstream, path_prefix })
}

/// The program that a command names and its arguments; nothing for an empty
/// command.
pub fn child_command(target: &ProxyTarget) -> (r: Option<(String, Vec<String>)>)
    ensures
        match r {
            Some((program, args)) => words(target.deep_view().command) == seq![program@]
                + args.deep_view(),
            None => words(target.deep_view().command).len() == 0,
        },
{
    let parts = split_words(target.command.as_str());
    let ghost all = parts.deep_view();
    let n: usize = parts.len();
    if n == 0 {
        return None;
    }
    let mut args: Vec<String> = Vec::new();
    let mut i: usize = 1;
    assert(args.deep_view() =~= all.subrange(1, 1));
    while i < n
        invariant
            1 <= i <= n,
            n == parts@.len(),
            all == parts.deep_view(),
            args.deep_view() == all.subrange(1, i as int),
        decreases n - i,
    {
        let ghost front = args.deep_view();
        args.push(parts[i].clone());
        assert(args.deep_view() =~= front.push(all[i as int]));
        assert(args.deep_view() =~= all.subrange(1, i + 1));
        i = i + 1;
    }
    assert(all =~= seq![parts@[0]@] + all.subrange(1, n as int));
    Some((parts[0].clone(), args))
}

/// What a child process that cannot be started for want of a command is reported
/// as.
pub const EMPTY_COMMAND: &'static str = "proxy command is empty";

// ---------------------------------------------------------------------------
// Laws
// ---------------------------------------------------------------------------

/// Switching it off counts, whatever else is set and whatever the directory
/// holds.
pub proof fn switching_off_counts(m: MarkersView, layer: ProxyLayerView)
    requires
        layer.enabled == Some(false),
    ensures
        resolved_target(m, layer) is None,
{
}

/// What is set counts, each setting for itself.
pub proof fn settings_count(m: MarkersView, layer: ProxyLayerView)
    ensures
        resolved_target(m, layer) matches Some(t) ==> (layer.kind is Some ==> t.kind
            == layer.kind->0) && (layer.command is Some ==> t.command == layer.command->0) && (
        layer.upstream is Some ==> t.upstream == layer.upstream->0) && (layer.path_prefix is Some
            ==> t.path_prefix == layer.path_prefix->0),
{
}

/// A command and an address are enough: no framework need be known.
pub proof fn command_and_address_are_enough(m: MarkersView, layer: ProxyLayerView)
    requires
        layer.enabled != Some(false),
        layer.command is Some,
        layer.upstream is Some,
    ensures
        resolved_target(m, layer) is Some,
{
}

/// The name of a framework is enough: the rest is what is known of it, and what
/// the directory holds does not matter.
pub proof fn a_name_is_enough(m: MarkersView, layer: ProxyLayerView)
    requires
        layer.enabled != Some(false),
        layer.kind is Some,
        named(profiles(), 0, layer.kind->0) is Some,
        layer.command is None,
        layer.upstream is None,
        layer.path_prefix is None,
    ensures
        resolved_target(m, layer) == Some(
            (ProxyTargetView { kind: layer.kind->0, ..named(profiles(), 0, layer.kind->0)->0 }),
        ),
{
}

} // verus!
