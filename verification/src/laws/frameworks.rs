//! Which development server a project gets.

use vstd::prelude::*;

use crate::configs::ProxyLayerView;
use crate::servers::proxy::{
    detected, named, profiles, resolved_target, MarkersView, ProxyTargetView,
};
use crate::text::{contains, lower, same_letters};

verus! {

/// A development server that gets all paths.
pub open spec fn server(kind: Seq<char>, command: Seq<char>, upstream: Seq<char>) -> ProxyTargetView {
    ProxyTargetView { kind, command, upstream, path_prefix: "/"@ }
}

/// Whether a directory has a file.
pub open spec fn has(m: MarkersView, name: Seq<char>) -> bool {
    exists|i: int| 0 <= i < m.files.len() && #[trigger] m.files[i] == name
}

/// Whether `package.json` holds a text.
pub open spec fn package_holds(m: MarkersView, text: Seq<char>) -> bool {
    m.package_json matches Some(t) && contains(t, text)
}

/// Whether one of the lists of a Python project holds a text, in whatever case.
pub open spec fn python_holds(m: MarkersView, text: Seq<char>) -> bool {
    (m.pyproject matches Some(t) && contains(lower(t), text)) || (m.requirements matches Some(t)
        && contains(lower(t), text))
}

proof fn lemma_names()
    ensures
        "vite"@.len() == 4 && "vite"@[0] == 'v',
        "bun"@.len() == 3,
        "deno"@.len() == 4 && "deno"@[0] == 'd',
        "node"@.len() == 4 && "node"@[0] == 'n',
        "rails"@.len() == 5 && "rails"@[0] == 'r',
        "django"@.len() == 6,
        "flask"@.len() == 5 && "flask"@[0] == 'f',
        "fastapi"@.len() == 7,
        "\""@ + "vite"@ + "\""@ == "\"vite\""@,
        "\""@ + "dev"@ + "\""@ == "\"dev\""@,
        "\""@ + "start"@ + "\""@ == "\"start\""@,
{
    reveal_strlit("vite");
    reveal_strlit("bun");
    reveal_strlit("deno");
    reveal_strlit("node");
    reveal_strlit("rails");
    reveal_strlit("django");
    reveal_strlit("flask");
    reveal_strlit("fastapi");
    reveal_strlit("\"");
    reveal_strlit("dev");
    reveal_strlit("start");
    reveal_strlit("\"vite\"");
    reveal_strlit("\"dev\"");
    reveal_strlit("\"start\"");
    assert("\""@ + "vite"@ + "\""@ =~= "\"vite\""@);
    assert("\""@ + "dev"@ + "\""@ =~= "\"dev\""@);
    assert("\""@ + "start"@ + "\""@ =~= "\"start\""@);
}

proof fn lemma_differ(a: Seq<char>, b: Seq<char>)
    requires
        a.len() != b.len() || (a.len() > 0 && lower(a)[0] != lower(b)[0]),
    ensures
        !same_letters(a, b),
{
    assert(lower(a).len() == a.len());
    assert(lower(b).len() == b.len());
}

/// Each framework is known by its name, in whatever case, and its server listens
/// where the framework puts it.
pub proof fn frameworks_are_known_by_name(name: Seq<char>)
    ensures
        same_letters(name, "vite"@) ==> named(profiles(), 0, name) == Some(
            server("vite"@, "npm run dev"@, "127.0.0.1:5173"@),
        ),
        same_letters(name, "bun"@) ==> named(profiles(), 0, name) == Some(
            server("bun"@, "bun run dev"@, "127.0.0.1:3000"@),
        ),
        same_letters(name, "deno"@) ==> named(profiles(), 0, name) == Some(
            server("deno"@, "deno task dev"@, "127.0.0.1:8000"@),
        ),
        same_letters(name, "node"@) ==> named(profiles(), 0, name) == Some(
            server("node"@, "npm run dev"@, "127.0.0.1:3000"@),
        ),
        same_letters(name, "rails"@) ==> named(profiles(), 0, name) == Some(
            server(
                "rails"@,
                "bundle exec rails server -b 127.0.0.1 -p 3000"@,
                "127.0.0.1:3000"@,
            ),
        ),
        same_letters(name, "django"@) ==> named(profiles(), 0, name) == Some(
            server(
                "django"@,
                "python3 manage.py runserver 127.0.0.1:8000"@,
                "127.0.0.1:8000"@,
            ),
        ),
        same_letters(name, "flask"@) ==> named(profiles(), 0, name) == Some(
            server("flask"@, "flask run --host 127.0.0.1 --port 5000"@, "127.0.0.1:5000"@),
        ),
        same_letters(name, "fastapi"@) ==> named(profiles(), 0, name) == Some(
            server(
                "fastapi"@,
                "uvicorn main:app --host 127.0.0.1 --port 8000"@,
                "127.0.0.1:8000"@,
            ),
        ),
        !same_letters(name, "vite"@) && !same_letters(name, "bun"@) && !same_letters(name, "deno"@)
            && !same_letters(name, "node"@) && !same_letters(name, "rails"@) && !same_letters(
            name,
            "django"@,
        ) && !same_letters(name, "flask"@) && !same_letters(name, "fastapi"@) ==> named(
            profiles(),
            0,
            name,
        ) is None,
{
    lemma_names();
    let v = lower("vite"@)[0];
    lemma_differ("vite"@, "bun"@);
    lemma_differ("vite"@, "deno"@);
    lemma_differ("vite"@, "node"@);
    lemma_differ("vite"@, "rails"@);
    lemma_differ("vite"@, "django"@);
    lemma_differ("vite"@, "flask"@);
    lemma_differ("vite"@, "fastapi"@);
    lemma_differ("bun"@, "deno"@);
    lemma_differ("bun"@, "node"@);
    lemma_differ("bun"@, "rails"@);
    lemma_differ("bun"@, "django"@);
    lemma_differ("bun"@, "flask"@);
    lemma_differ("bun"@, "fastapi"@);
    lemma_differ("deno"@, "node"@);
    lemma_differ("deno"@, "rails"@);
    lemma_differ("deno"@, "django"@);
    lemma_differ("deno"@, "flask"@);
    lemma_differ("deno"@, "fastapi"@);
    lemma_differ("node"@, "rails"@);
    lemma_differ("node"@, "django"@);
    lemma_differ("node"@, "flask"@);
    lemma_differ("node"@, "fastapi"@);
    lemma_differ("rails"@, "django"@);
    lemma_differ("rails"@, "flask"@);
    lemma_differ("rails"@, "fastapi"@);
    lemma_differ("django"@, "flask"@);
    lemma_differ("django"@, "fastapi"@);
    lemma_differ("flask"@, "fastapi"@);
    reveal_with_fuel(named, 9);
}

/// Whether a project is one of Vite.
pub open spec fn tells_vite(m: MarkersView) -> bool {
    has(m, "vite.config.js"@) || has(m, "vite.config.ts"@) || has(m, "vite.config.mjs"@) || has(
        m,
        "vite.config.mts"@,
    ) || package_holds(m, "\"vite\""@)
}

/// Whether a project is one of Bun.
pub open spec fn tells_bun(m: MarkersView) -> bool {
    has(m, "bun.lockb"@) && has(m, "package.json"@)
}

/// Whether a project is one of Deno.
pub open spec fn tells_deno(m: MarkersView) -> bool {
    has(m, "deno.json"@) || has(m, "deno.jsonc"@)
}

/// Whether a project is one of Node.
pub open spec fn tells_node(m: MarkersView) -> bool {
    has(m, "package.json"@) && (package_holds(m, "\"dev\""@) || package_holds(m, "\"start\""@))
}

/// Whether a project is one of Rails.
pub open spec fn tells_rails(m: MarkersView) -> bool {
    has(m, "Gemfile"@) && has(m, "config.ru"@)
}

/// Whether a project is one of Python that needs a package.
pub open spec fn tells_python(m: MarkersView, package: Seq<char>) -> bool {
    (has(m, "pyproject.toml"@) || has(m, "requirements.txt"@)) && python_holds(m, package)
}

/// A project gets the server of the first framework of which it has a marker, and
/// each marker tells of its framework alone: any configuration file of Vite, or its
/// name in `package.json`; then Bun, Deno, Node, Rails, Django, FastAPI and Flask. A
/// project with no marker gets no server.
pub proof fn markers_tell_the_framework(m: MarkersView)
    ensures
        detected(m) == (if tells_vite(m) {
            Some(server("vite"@, "npm run dev"@, "127.0.0.1:5173"@))
        } else if tells_bun(m) {
            Some(server("bun"@, "bun run dev"@, "127.0.0.1:3000"@))
        } else if tells_deno(m) {
            Some(server("deno"@, "deno task dev"@, "127.0.0.1:8000"@))
        } else if tells_node(m) {
            Some(server("node"@, "npm run dev"@, "127.0.0.1:3000"@))
        } else if tells_rails(m) {
            Some(
                server(
                    "rails"@,
                    "bundle exec rails server -b 127.0.0.1 -p 3000"@,
                    "127.0.0.1:3000"@,
                ),
            )
        } else if has(m, "manage.py"@) {
            Some(
                server(
                    "django"@,
                    "python3 manage.py runserver 127.0.0.1:8000"@,
                    "127.0.0.1:8000"@,
                ),
            )
        } else if tells_python(m, "fastapi"@) {
            Some(
                server(
                    "fastapi"@,
                    "uvicorn main:app --host 127.0.0.1 --port 8000"@,
                    "127.0.0.1:8000"@,
                ),
            )
        } else if tells_python(m, "flask"@) {
            Some(server("flask"@, "flask run --host 127.0.0.1 --port 5000"@, "127.0.0.1:5000"@))
        } else {
            None
        }),
{
    lemma_names();
    frameworks_are_known_by_name("vite"@);
    frameworks_are_known_by_name("bun"@);
    frameworks_are_known_by_name("deno"@);
    frameworks_are_known_by_name("node"@);
    frameworks_are_known_by_name("rails"@);
    frameworks_are_known_by_name("django"@);
    frameworks_are_known_by_name("fastapi"@);
    frameworks_are_known_by_name("flask"@);
}

/// Where nothing is configured, requests go to the server that the directory tells
/// of; and there is none where it tells of none.
pub proof fn without_settings_the_directory_decides(m: MarkersView, layer: ProxyLayerView)
    requires
        layer.enabled != Some(false),
        layer.kind is None,
        layer.command is None,
        layer.upstream is None,
        layer.path_prefix is None,
    ensures
        resolved_target(m, layer) == detected(m),
{
}

/// A server without a name, a path or a framework is a custom one for all paths.
pub proof fn custom_servers_get_all_paths(m: MarkersView, layer: ProxyLayerView)
    requires
        layer.enabled != Some(false),
        layer.kind is None,
        layer.command is Some,
        layer.upstream is Some,
        layer.path_prefix is None,
        detected(m) is None,
    ensures
        resolved_target(m, layer) == Some(
            server("custom"@, layer.command->0, layer.upstream->0),
        ),
{
}

/// A server whose command or address is neither set nor known is none.
pub proof fn unknown_servers_are_none(m: MarkersView, layer: ProxyLayerView)
    requires
        layer.command is None || layer.upstream is None,
        match layer.kind {
            Some(k) => named(profiles(), 0, k) is None,
            None => detected(m) is None,
        },
    ensures
        resolved_target(m, layer) is None,
{
}

} // verus!
