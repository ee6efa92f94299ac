//! Where settings come from, and what they mean.

use vstd::prelude::*;

use crate::configs::headers::{
    after_overrides, cors_of, default_cors, default_headers, overridden, server_header, spelling,
    tokens_in, with_overrides,
};
use crate::configs::resolve::{
    config_files, dotted, first_text, free_port, is_yes, joined_extensions, layer_of_file, name_of,
    proxy_over, resolved, ssi_layered, tested_files, CliView, EnvironmentView, FileTextView,
    MachineView,
};
use crate::configs::yaml::{entry, items, layer_in, overrides, strings, under, Yaml};
use crate::configs::{silent, CorsLayerView, LayerView, ProxyLayerView};
use crate::digits::decimal;
use crate::laws::outputs::lemma_replace_one;
use crate::laws::wording::{
    is_tight, lemma_not_prefixed, lemma_prefixed, lemma_tight, numbers_read_back,
    trimming_takes_space_away,
};
use crate::outside::yaml_document;
use crate::paths::under_dir;
use crate::supports::version::VERSION;
use crate::text::{is_space, lower, replace, same_letters, split, trim};

verus! {

// ---------------------------------------------------------------------------
// Files
// ---------------------------------------------------------------------------

/// What stands under a key is what its first entry says.
pub proof fn the_first_entry_counts(e: Seq<(Yaml, Yaml)>, key: Seq<char>, k: int)
    requires
        0 <= k < e.len(),
        e[k].0 matches Yaml::Text(s) && s@ == key,
        forall|i: int| 0 <= i < k ==> !(#[trigger] e[i].0 matches Yaml::Text(s) && s@ == key),
    ensures
        entry(e, key) == Some(e[k].1),
    decreases k,
{
    if k > 0 {
        assert(!(e[0].0 matches Yaml::Text(s) && s@ == key));
        let t = e.skip(1);
        assert forall|i: int| 0 <= i < k - 1 implies !(#[trigger] t[i].0 matches Yaml::Text(s)
            && s@ == key) by {
            assert(t[i] == e[i + 1]);
        }
        the_first_entry_counts(t, key, k - 1);
    }
}

/// Each setting stands under its own name, and one of another kind than it should be is
/// none.
pub proof fn settings_stand_under_their_names(y: Yaml, s: String, b: bool, n: u64)
    ensures
        under(y, "base_dir"@) == Some(Yaml::Text(s)) ==> layer_in(y).base_dir == Some(s@),
        under(y, "listen"@) == Some(Yaml::Text(s)) ==> layer_in(y).listen == Some(s@),
        under(y, "log_dir"@) == Some(Yaml::Text(s)) ==> layer_in(y).log_dir == Some(s@),
        under(y, "fqdn"@) == Some(Yaml::Text(s)) ==> layer_in(y).fqdn == Some(s@),
        under(y, "server_tokens"@) == Some(Yaml::Text(s)) ==> layer_in(y).server_tokens == Some(
            s@,
        ),
        under(y, "debug"@) == Some(Yaml::Bool(b)) ==> layer_in(y).debug == Some(b),
        under(y, "directory_listing"@) == Some(Yaml::Bool(b)) ==> layer_in(y).directory_listing
            == Some(b),
        under(y, "port"@) == Some(Yaml::Number(n)) && n <= 0xffff ==> layer_in(y).port == Some(
            n as u16,
        ),
        under(y, "port"@) == Some(Yaml::Number(n)) && n > 0xffff ==> layer_in(y).port is None,
        under(y, "port"@) == Some(Yaml::Text(s)) ==> layer_in(y).port is None,
        under(y, "debug"@) == Some(Yaml::Text(s)) ==> layer_in(y).debug is None,
        under(y, "listen"@) == Some(Yaml::Number(n)) ==> layer_in(y).listen is None,
        under(y, "base_dir"@) is None ==> layer_in(y).base_dir is None,
        under(y, "listen"@) is None ==> layer_in(y).listen is None,
        under(y, "port"@) is None ==> layer_in(y).port is None,
        under(y, "log_dir"@) is None ==> layer_in(y).log_dir is None,
        under(y, "debug"@) is None ==> layer_in(y).debug is None,
        under(y, "fqdn"@) is None ==> layer_in(y).fqdn is None,
        under(y, "tls"@) is None ==> layer_in(y).tls_enabled is None,
        under(y, "directory_listing"@) is None ==> layer_in(y).directory_listing is None,
        under(y, "server_tokens"@) is None ==> layer_in(y).server_tokens is None,
        under(y, "ssi_extensions"@) is None ==> layer_in(y).ssi_extensions is None,
        under(y, "cors"@) is None ==> layer_in(y).cors is None,
{
}

/// Settings with parts: each part stands under its own name in them.
pub proof fn settings_have_parts(y: Yaml, part: Yaml, inner: Yaml, s: String, b: bool)
    ensures
        under(y, "tls"@) == Some(part) && under(part, "enabled"@) == Some(Yaml::Bool(b))
            ==> layer_in(y).tls_enabled == Some(b),
        under(y, "proxy"@) == Some(part) && under(part, "enabled"@) == Some(Yaml::Bool(b))
            ==> layer_in(y).proxy.enabled == Some(b),
        under(y, "proxy"@) == Some(part) && under(part, "type"@) == Some(Yaml::Text(s))
            ==> layer_in(y).proxy.kind == Some(s@),
        under(y, "proxy"@) == Some(part) && under(part, "command"@) == Some(Yaml::Text(s))
            ==> layer_in(y).proxy.command == Some(s@),
        under(y, "proxy"@) == Some(part) && under(part, "upstream"@) == Some(Yaml::Text(s))
            ==> layer_in(y).proxy.upstream == Some(s@),
        under(y, "proxy"@) == Some(part) && under(part, "path_prefix"@) == Some(Yaml::Text(s))
            ==> layer_in(y).proxy.path_prefix == Some(s@),
        under(y, "logging"@) == Some(part) && under(part, "access"@) == Some(inner) && under(
            inner,
            "format"@,
        ) == Some(Yaml::Text(s)) ==> layer_in(y).logging_access.format == Some(s@),
        under(y, "logging"@) == Some(part) && under(part, "access"@) == Some(inner) && under(
            inner,
            "rotate"@,
        ) == Some(Yaml::Text(s)) ==> layer_in(y).logging_access.rotate == Some(s@),
        under(y, "logging"@) == Some(part) && under(part, "access"@) == Some(inner) && under(
            inner,
            "keep"@,
        ) == Some(Yaml::Text(s)) ==> layer_in(y).logging_access.keep == Some(s@),
        under(y, "logging"@) == Some(part) && under(part, "error"@) == Some(inner) && under(
            inner,
            "format"@,
        ) == Some(Yaml::Text(s)) ==> layer_in(y).logging_error.format == Some(s@),
        under(y, "logging"@) == Some(part) && under(part, "error"@) == Some(inner) && under(
            inner,
            "rotate"@,
        ) == Some(Yaml::Text(s)) ==> layer_in(y).logging_error.rotate == Some(s@),
        under(y, "logging"@) == Some(part) && under(part, "error"@) == Some(inner) && under(
            inner,
            "keep"@,
        ) == Some(Yaml::Text(s)) ==> layer_in(y).logging_error.keep == Some(s@),
        under(y, "cors"@) == Some(Yaml::Bool(false)) ==> layer_in(y).cors == Some(
            CorsLayerView::Disabled,
        ),
        under(y, "cors"@) == Some(Yaml::Bool(true)) ==> layer_in(y).cors == Some(
            CorsLayerView::Headers(Map::empty()),
        ),
{
}

/// Of a list of names and values all pairs of text are kept, the last for each name; and
/// a name without a text takes away what was set for it.
pub proof fn pairs_are_kept(e: Seq<(Yaml, Yaml)>, name: String, value: String, other: Yaml)
    requires
        !(other is Text) && !(other is Tagged),
    ensures
        strings(e.push((Yaml::Text(name), Yaml::Text(value)))) == strings(e).insert(
            name@,
            value@,
        ),
        strings(e.push((Yaml::Text(name), other))) == strings(e),
        strings(Seq::empty()) == Map::<Seq<char>, Seq<char>>::empty(),
        overrides(e.push((Yaml::Text(name), Yaml::Text(value)))) == overrides(e).insert(
            name@,
            Some(value@),
        ),
        overrides(e.push((Yaml::Text(name), other))) == overrides(e).insert(name@, None),
{
    let a = e.push((Yaml::Text(name), Yaml::Text(value)));
    let b = e.push((Yaml::Text(name), other));
    assert(a.drop_last() =~= e);
    assert(b.drop_last() =~= e);
}

/// Of a list all texts are kept, in their order.
pub proof fn texts_are_listed(l: Seq<Yaml>, s: String, other: Yaml)
    requires
        !(other is Text) && !(other is Tagged),
    ensures
        items(l.push(Yaml::Text(s))) == items(l).push(s@),
        items(l.push(other)) == items(l),
        items(Seq::empty()) == Seq::<Seq<char>>::empty(),
{
    assert(l.push(Yaml::Text(s)).drop_last() =~= l);
    assert(l.push(other).drop_last() =~= l);
}

/// A file that is not there, or is empty, sets nothing; one that cannot be read, or that
/// is no settings, is an error that names it.
pub proof fn files_set_what_they_say(path: Seq<char>, text: Seq<char>, cause: Seq<char>, y: Yaml)
    ensures
        layer_of_file(path, FileTextView::Missing) == Ok::<LayerView, Seq<char>>(silent()),
        trim(text).len() == 0 ==> layer_of_file(path, FileTextView::Text(text)) == Ok::<
            LayerView,
            Seq<char>,
        >(silent()),
        layer_of_file(path, FileTextView::Unreadable(cause)) == Err::<LayerView, Seq<char>>(cause),
        trim(text).len() > 0 && yaml_document(text) == Ok::<Yaml, Seq<char>>(y) ==> layer_of_file(
            path,
            FileTextView::Text(text),
        ) == Ok::<LayerView, Seq<char>>(layer_in(y)),
        trim(text).len() > 0 && yaml_document(text) == Err::<Yaml, Seq<char>>(cause)
            ==> layer_of_file(path, FileTextView::Text(text)) == Err::<LayerView, Seq<char>>(
            path + seq![':', ' '] + cause,
        ),
{
    reveal_strlit(": ");
    assert(": "@ =~= seq![':', ' ']);
}

/// The settings of a project stand in a file that is named after its directory, unless
/// another is given.
pub proof fn projects_have_a_file(
    cli: CliView,
    env: EnvironmentView,
    config_dir: Seq<char>,
    dir: Seq<char>,
    file: Seq<char>,
)
    ensures
        config_files(cli, env, config_dir, Some(dir)).0 == under_dir(config_dir, "config.yaml"@),
        cli.config_path == Some(file) ==> config_files(cli, env, config_dir, Some(dir)).1 == file,
        cli.config_path is None ==> config_files(cli, env, config_dir, Some(dir)).1 == under_dir(
            under_dir(config_dir, "projects"@),
            name_of(dir) + ".yaml"@,
        ),
        cli.config_path is None ==> tested_files(cli, config_dir, Some(dir)).1 == under_dir(
            under_dir(config_dir, "projects"@),
            name_of(dir) + ".yaml"@,
        ),
        cli.config_path == Some(file) ==> tested_files(cli, config_dir, Some(dir)).1 == file,
{
}

/// The name of a project is the path of its directory with underscores for slashes.
pub proof fn names_have_no_slashes(path: Seq<char>, i: int)
    requires
        0 <= i < path.len(),
    ensures
        name_of(path).len() == path.len(),
        path[i] == '/' || path[i] == '\\' ==> name_of(path)[i] == '_',
        path[i] != '/' && path[i] != '\\' ==> name_of(path)[i] == path[i],
        name_of(Seq::empty()) == "root"@,
{
    reveal_strlit("/");
    reveal_strlit("_");
    assert("/"@ =~= seq!['/']);
    assert("_"@ =~= seq!['_']);
    lemma_replace_one(path, '\\', '/', i);
    let p = replace(path, '\\', seq!['/']);
    lemma_replace_one(p, '/', '_', i);
}

// ---------------------------------------------------------------------------
// What counts
// ---------------------------------------------------------------------------

/// The command line counts before the environment, this before the settings of the
/// project, and these before those of all projects.
pub proof fn settings_count_in_order(
    cli: CliView,
    env: EnvironmentView,
    global: LayerView,
    project: LayerView,
    machine: MachineView,
    path: Seq<char>,
)
    ensures
        ({
            let r = resolved(cli, env, global, project, machine, path);
            &&& cli.listen is Some ==> r.listen == cli.listen->0
            &&& cli.listen is None && env.listen is Some ==> r.listen == env.listen->0
            &&& cli.listen is None && env.listen is None && project.listen is Some ==> r.listen
                == project.listen->0
            &&& cli.listen is None && env.listen is None && project.listen is None && global.listen
                is Some ==> r.listen == global.listen->0
            &&& cli.listen is None && env.listen is None && project.listen is None && global.listen
                is None && machine.v6_available ==> r.listen == "::1"@
            &&& cli.listen is None && env.listen is None && project.listen is None && global.listen
                is None && !machine.v6_available ==> r.listen == "127.0.0.1"@
            &&& cli.log_dir is Some ==> r.log_dir == cli.log_dir->0
            &&& cli.log_dir is None && env.log_dir is Some ==> r.log_dir == env.log_dir->0
            &&& cli.log_dir is None && env.log_dir is None && project.log_dir is Some ==> r.log_dir
                == project.log_dir->0
            &&& cli.log_dir is None && env.log_dir is None && project.log_dir is None
                && global.log_dir is Some ==> r.log_dir == global.log_dir->0
            &&& cli.log_dir is None && env.log_dir is None && project.log_dir is None
                && global.log_dir is None ==> r.log_dir == machine.log_dir
            &&& cli.fqdn is Some ==> r.fqdn == cli.fqdn
            &&& cli.fqdn is None && env.fqdn is Some ==> r.fqdn == env.fqdn
            &&& cli.fqdn is None && env.fqdn is None && project.fqdn is Some ==> r.fqdn
                == project.fqdn
            &&& cli.fqdn is None && env.fqdn is None && project.fqdn is None ==> r.fqdn
                == global.fqdn
            &&& cli.debug is Some ==> r.debug == cli.debug->0
            &&& cli.debug is None && env.debug is Some ==> r.debug == is_yes(env.debug->0)
            &&& cli.debug is None && env.debug is None && project.debug is Some ==> r.debug
                == project.debug->0
            &&& cli.debug is None && env.debug is None && project.debug is None && global.debug
                is Some ==> r.debug == global.debug->0
            &&& cli.debug is None && env.debug is None && project.debug is None && global.debug
                is None ==> !r.debug
            &&& env.tls_enabled is Some ==> r.tls_enabled == is_yes(env.tls_enabled->0)
            &&& env.tls_enabled is None && project.tls_enabled is Some ==> r.tls_enabled
                == project.tls_enabled->0
            &&& env.tls_enabled is None && project.tls_enabled is None && global.tls_enabled
                is Some ==> r.tls_enabled == global.tls_enabled->0
            &&& env.tls_enabled is None && project.tls_enabled is None && global.tls_enabled
                is None ==> !r.tls_enabled
            &&& env.directory_listing is Some ==> r.directory_listing == is_yes(
                env.directory_listing->0,
            )
            &&& env.directory_listing is None && project.directory_listing is Some
                ==> r.directory_listing == project.directory_listing->0
            &&& env.directory_listing is None && project.directory_listing is None
                && global.directory_listing is Some ==> r.directory_listing
                == global.directory_listing->0
            &&& env.directory_listing is None && project.directory_listing is None
                && global.directory_listing is None ==> !r.directory_listing
        }),
{
}

/// The same of the port, which the environment may name in digits; and without any
/// setting a port that nobody uses is taken.
pub proof fn ports_count_in_order(
    cli: CliView,
    env: EnvironmentView,
    global: LayerView,
    project: LayerView,
    machine: MachineView,
    path: Seq<char>,
    n: u16,
)
    ensures
        ({
            let r = resolved(cli, env, global, project, machine, path);
            &&& cli.port is Some ==> r.port == cli.port->0
            &&& cli.port is None && env.port == Some(decimal(n as int)) ==> r.port == n
            &&& cli.port is None && env.port is None && project.port is Some ==> r.port
                == project.port->0
            &&& cli.port is None && env.port is None && project.port is None && global.port is Some
                ==> r.port == global.port->0
            &&& cli.port is None && env.port is None && project.port is None && global.port is None
                && free_port(machine.nanos, machine.taken_ports, 0) is Some ==> r.port == free_port(
                machine.nanos,
                machine.taken_ports,
                0,
            )->0
        }),
{
    numbers_read_back(n as int);
}

/// The directory that is served: what the command line or the environment names, else
/// what the project names, else what is named for all projects, else where the server
/// was started; each as the machine knows it.
pub proof fn directories_count_in_order(
    cli: CliView,
    env: EnvironmentView,
    global: LayerView,
    project: LayerView,
    machine: MachineView,
    path: Seq<char>,
    known_as: Seq<char>,
)
    ensures
        ({
            let r = resolved(cli, env, global, project, machine, path);
            &&& (cli.base_dir is Some || env.base_dir is Some) && machine.base_dir == Some(known_as)
                ==> r.base_dir == known_as
            &&& cli.base_dir is Some && machine.base_dir is None ==> r.base_dir == cli.base_dir->0
            &&& cli.base_dir is None && env.base_dir is Some && machine.base_dir is None
                ==> r.base_dir == env.base_dir->0
            &&& cli.base_dir is None && env.base_dir is None && project.base_dir is Some
                && machine.project_base_dir == Some(known_as) ==> r.base_dir == known_as
            &&& cli.base_dir is None && env.base_dir is None && project.base_dir is Some
                && machine.project_base_dir is None ==> r.base_dir == project.base_dir->0
            &&& cli.base_dir is None && env.base_dir is None && project.base_dir is None
                && global.base_dir is Some && machine.global_base_dir is None ==> r.base_dir
                == global.base_dir->0
            &&& cli.base_dir is None && env.base_dir is None && project.base_dir is None
                && global.base_dir is None && machine.base_dir == Some(known_as) ==> r.base_dir == known_as
        }),
{
}

/// Kinds of files and what runs them: the project counts before what is set for all, and
/// that before what is usual.
pub proof fn tables_count_in_order(
    cli: CliView,
    env: EnvironmentView,
    global: LayerView,
    project: LayerView,
    machine: MachineView,
    path: Seq<char>,
    key: Seq<char>,
)
    ensures
        ({
            let r = resolved(cli, env, global, project, machine, path);
            &&& project.mime_types.contains_key(key) ==> r.mime_types.contains_key(key)
                && r.mime_types[key] == project.mime_types[key]
            &&& !project.mime_types.contains_key(key) && global.mime_types.contains_key(key)
                ==> r.mime_types.contains_key(key) && r.mime_types[key] == global.mime_types[key]
            &&& !project.mime_types.contains_key(key) && !global.mime_types.contains_key(key)
                ==> !r.mime_types.contains_key(key)
            &&& project.script_handlers.contains_key(key) ==> r.script_handlers.contains_key(key)
                && r.script_handlers[key] == project.script_handlers[key]
            &&& !project.script_handlers.contains_key(key) && global.script_handlers.contains_key(
                key,
            ) ==> r.script_handlers.contains_key(key) && r.script_handlers[key]
                == global.script_handlers[key]
            &&& !project.script_handlers.contains_key(key) && !global.script_handlers.contains_key(
                key,
            ) && key == "py"@ ==> r.script_handlers.contains_key(key) && r.script_handlers[key]
                == Some("python3"@)
            &&& !project.script_handlers.contains_key(key) && !global.script_handlers.contains_key(
                key,
            ) && key == "php"@ ==> r.script_handlers.contains_key(key) && r.script_handlers[key]
                == Some("php-cgi"@)
            &&& !project.script_handlers.contains_key(key) && !global.script_handlers.contains_key(
                key,
            ) && key == "cgi"@ ==> r.script_handlers.contains_key(key) && r.script_handlers[key]
                == Some("exec"@)
            &&& !project.script_handlers.contains_key(key) && !global.script_handlers.contains_key(
                key,
            ) && key == "pl"@ ==> r.script_handlers.contains_key(key) && r.script_handlers[key]
                == Some("perl"@)
            &&& !project.script_handlers.contains_key(key) && !global.script_handlers.contains_key(
                key,
            ) && key == "rb"@ ==> r.script_handlers.contains_key(key) && r.script_handlers[key]
                == Some("ruby"@)
            &&& !project.script_handlers.contains_key(key) && !global.script_handlers.contains_key(
                key,
            ) && key == "lua"@ ==> r.script_handlers.contains_key(key) && r.script_handlers[key]
                == Some("lua"@)
        }),
{
    reveal_strlit("py");
    reveal_strlit("php");
    reveal_strlit("cgi");
    reveal_strlit("pl");
    reveal_strlit("rb");
    reveal_strlit("lua");
    assert("py"@.len() == 2 && "pl"@.len() == 2 && "rb"@.len() == 2);
    assert("php"@.len() == 3 && "cgi"@.len() == 3 && "lua"@.len() == 3);
    assert("py"@[1] != "pl"@[1]);
    assert("py"@[0] != "rb"@[0] && "pl"@[0] != "rb"@[0]);
    assert("php"@[0] != "cgi"@[0] && "php"@[0] != "lua"@[0] && "cgi"@[0] != "lua"@[0]);
}

/// How logs are kept: the project counts before what is set for all, and that before
/// what is usual.
pub proof fn logs_count_in_order(
    cli: CliView,
    env: EnvironmentView,
    global: LayerView,
    project: LayerView,
    machine: MachineView,
    path: Seq<char>,
)
    ensures
        ({
            let r = resolved(cli, env, global, project, machine, path);
            let (p, g) = (project.logging_access, global.logging_access);
            let (q, h) = (project.logging_error, global.logging_error);
            &&& p.format is Some ==> r.logging_access_format == p.format->0
            &&& p.format is None && g.format is Some ==> r.logging_access_format == g.format->0
            &&& p.format is None && g.format is None ==> r.logging_access_format == "combined"@
            &&& p.rotate is Some ==> r.logging_access_rotate == p.rotate->0
            &&& p.rotate is None && g.rotate is Some ==> r.logging_access_rotate == g.rotate->0
            &&& p.rotate is None && g.rotate is None ==> r.logging_access_rotate == "daily"@
            &&& p.keep is Some ==> r.logging_access_keep == p.keep->0
            &&& p.keep is None && g.keep is Some ==> r.logging_access_keep == g.keep->0
            &&& p.keep is None && g.keep is None ==> r.logging_access_keep == "30d"@
            &&& q.format is Some ==> r.logging_error_format == q.format->0
            &&& q.format is None && h.format is Some ==> r.logging_error_format == h.format->0
            &&& q.format is None && h.format is None ==> r.logging_error_format == "standard"@
            &&& q.rotate is Some ==> r.logging_error_rotate == q.rotate->0
            &&& q.rotate is None && h.rotate is Some ==> r.logging_error_rotate == h.rotate->0
            &&& q.rotate is None && h.rotate is None ==> r.logging_error_rotate == "daily"@
            &&& q.keep is Some ==> r.logging_error_keep == q.keep->0
            &&& q.keep is None && h.keep is Some ==> r.logging_error_keep == h.keep->0
            &&& q.keep is None && h.keep is None ==> r.logging_error_keep == "30d"@
            &&& r.project_config_path == path
        }),
{
}

/// The same of each setting of the development server.
pub proof fn proxies_count_in_order(project: ProxyLayerView, global: ProxyLayerView)
    ensures
        project.enabled is Some ==> proxy_over(project, global).enabled == project.enabled,
        project.enabled is None ==> proxy_over(project, global).enabled == global.enabled,
        project.kind is Some ==> proxy_over(project, global).kind == project.kind,
        project.kind is None ==> proxy_over(project, global).kind == global.kind,
        project.command is Some ==> proxy_over(project, global).command == project.command,
        project.command is None ==> proxy_over(project, global).command == global.command,
        project.upstream is Some ==> proxy_over(project, global).upstream == project.upstream,
        project.upstream is None ==> proxy_over(project, global).upstream == global.upstream,
        project.path_prefix is Some ==> proxy_over(project, global).path_prefix
            == project.path_prefix,
        project.path_prefix is None ==> proxy_over(project, global).path_prefix
            == global.path_prefix,
{
}

// ---------------------------------------------------------------------------
// Values
// ---------------------------------------------------------------------------

/// Four words mean yes, in letters of any case and with space around them; and what is
/// none of them means no.
pub proof fn yes_is_said_in_four_ways(word: Seq<char>, a: Seq<char>, b: Seq<char>)
    requires
        is_tight(word),
        forall|i: int| 0 <= i < a.len() ==> is_space(#[trigger] a[i]),
        forall|i: int| 0 <= i < b.len() ==> is_space(#[trigger] b[i]),
    ensures
        is_yes(a + word + b) <==> same_letters(word, "1"@) || same_letters(word, "true"@)
            || same_letters(word, "yes"@) || same_letters(word, "on"@),
{
    trimming_takes_space_away(a, word, b);
    reveal_strlit("1");
    reveal_strlit("true");
    reveal_strlit("yes");
    reveal_strlit("on");
    assert(lower("1"@) =~= "1"@);
    assert(lower("true"@) =~= "true"@);
    assert(lower("yes"@) =~= "yes"@);
    assert(lower("on"@) =~= "on"@);
}

/// A port that is looked for is the first that nobody uses, from some start on, among
/// the last thousand before 60000.
pub proof fn free_ports_are_unused(nanos: u32, taken: Seq<u16>, k: int)
    requires
        0 <= k <= 1000,
    ensures
        free_port(nanos, taken, k) matches Some(p) ==> 59000 <= p <= 59999 && !taken.contains(p),
        k < 1000 && !taken.contains((59000 + (nanos as int + k) % 1000) as u16) ==> free_port(
            nanos,
            taken,
            k,
        ) == Some((59000 + (nanos as int + k) % 1000) as u16),
        k < 1000 && taken.contains((59000 + (nanos as int + k) % 1000) as u16) ==> free_port(
            nanos,
            taken,
            k,
        ) == free_port(nanos, taken, k + 1),
    decreases 1000 - k,
{
    if k < 1000 {
        free_ports_are_unused(nanos, taken, k + 1);
    }
}

/// An ending has a dot before it, whether it was written or not, and is in lower case.
pub proof fn endings_have_a_dot(w: Seq<char>)
    requires
        is_tight(w),
        w.len() == 0 || w[0] != '.',
    ensures
        dotted(w) == seq!['.'] + lower(w),
        dotted(seq!['.'] + w) == seq!['.'] + lower(w),
{
    reveal_strlit(".");
    assert("."@ =~= seq!['.']);
    lemma_tight(w);
    lemma_not_prefixed("."@, lower(w));
    let d = seq!['.'] + w;
    if w.len() > 0 {
        assert(d.last() == w.last());
    } else {
        assert(d.last() == '.');
    }
    lemma_tight(d);
    assert(lower(d) =~= seq!['.'] + lower(w));
    lemma_prefixed("."@, lower(w));
}

/// Endings of pages with directives are added to those known; none at all takes them all
/// away; and where nothing is said they stay.
pub proof fn endings_are_added(known: Seq<Seq<char>>, list: Seq<Seq<char>>, w: Seq<char>)
    ensures
        ssi_layered(known, None) == known,
        ssi_layered(known, Some(Seq::empty())) == Seq::<Seq<char>>::empty(),
        list.len() > 0 ==> ssi_layered(known, Some(list)) == joined_extensions(known, list),
        joined_extensions(known, Seq::empty()) == known,
        joined_extensions(known, list).contains(dotted(w)) ==> joined_extensions(
            known,
            list.push(w),
        ) == joined_extensions(known, list),
        !joined_extensions(known, list).contains(dotted(w)) ==> joined_extensions(
            known,
            list.push(w),
        ) == joined_extensions(known, list).push(dotted(w)),
{
    assert(list.push(w).drop_last() =~= list);
}

/// How much a server tells of itself.
pub proof fn servers_tell_as_much_as_asked(
    word: Seq<char>,
    os: Seq<char>,
    arch: Seq<char>,
)
    requires
        is_tight(word),
    ensures
        same_letters(word, "prod"@) || same_letters(word, "productonly"@) ==> server_header(
            tokens_in(word),
            os,
            arch,
        ) == "cashttpd"@,
        same_letters(word, "min"@) ==> server_header(tokens_in(word), os, arch) == "cashttpd/"@
            + VERSION@,
        same_letters(word, "os"@) ==> server_header(tokens_in(word), os, arch) == "cashttpd/"@
            + VERSION@ + seq![' ', '('] + os + seq![')'],
        same_letters(word, "full"@) ==> server_header(tokens_in(word), os, arch) == "cashttpd/"@
            + VERSION@ + seq![' ', '('] + os + seq![';', ' '] + arch + seq![')'],
        same_letters(word, "major"@) ==> server_header(tokens_in(word), os, arch) == "cashttpd/"@
            + split(VERSION@, '.')[0] || split(VERSION@, '.').len() == 0,
        same_letters(word, "minor"@) && split(VERSION@, '.').len() >= 2 ==> server_header(
            tokens_in(word),
            os,
            arch,
        ) == "cashttpd/"@ + split(VERSION@, '.')[0] + seq!['.'] + split(VERSION@, '.')[1],
{
    lemma_tight(word);
    reveal_strlit("prod");
    reveal_strlit("productonly");
    reveal_strlit("min");
    reveal_strlit("os");
    reveal_strlit("full");
    reveal_strlit("major");
    reveal_strlit("minor");
    reveal_strlit(" (");
    reveal_strlit(")");
    reveal_strlit("; ");
    reveal_strlit(".");
    assert(" ("@ =~= seq![' ', '(']);
    assert(")"@ =~= seq![')']);
    assert("; "@ =~= seq![';', ' ']);
    assert("."@ =~= seq!['.']);
    assert(lower("prod"@) =~= "prod"@);
    assert(lower("productonly"@) =~= "productonly"@);
    assert(lower("min"@) =~= "min"@);
    assert(lower("os"@) =~= "os"@);
    assert(lower("full"@) =~= "full"@);
    assert(lower("major"@) =~= "major"@);
    assert(lower("minor"@) =~= "minor"@);
    assert("prod"@.len() == 4 && "full"@.len() == 4 && "productonly"@.len() == 11);
    assert("min"@.len() == 3 && "os"@.len() == 2 && "major"@.len() == 5 && "minor"@.len() == 5);
    assert("prod"@[0] != "full"@[0]);
    assert("major"@[1] != "minor"@[1]);
}

/// The fields for safety that every answer has, unless they are set otherwise.
pub proof fn answers_are_made_safe(server: Seq<char>, tls: bool)
    ensures
        ({
            let m = default_headers(tls, server);
            &&& m.contains_key("Server"@) && m["Server"@] == server
            &&& m.contains_key("X-Content-Type-Options"@) && m["X-Content-Type-Options"@]
                == "nosniff"@
            &&& m.contains_key("X-Frame-Options"@) && m["X-Frame-Options"@] == "SAMEORIGIN"@
            &&& m.contains_key("Referrer-Policy"@) && m["Referrer-Policy"@]
                == "no-referrer-when-downgrade"@
            &&& m.contains_key("Strict-Transport-Security"@) <==> tls
            &&& tls ==> m["Strict-Transport-Security"@] == "max-age=31536000; includeSubDomains"@
        }),
{
    reveal_strlit("Server");
    reveal_strlit("X-Content-Type-Options");
    reveal_strlit("X-Frame-Options");
    reveal_strlit("Referrer-Policy");
    reveal_strlit("Strict-Transport-Security");
    assert("Server"@.len() == 6);
    assert("X-Content-Type-Options"@.len() == 22);
    assert("X-Frame-Options"@.len() == 15);
    assert("Referrer-Policy"@.len() == 15);
    assert("Strict-Transport-Security"@.len() == 25);
    assert("X-Frame-Options"@[0] != "Referrer-Policy"@[0]);
}

/// A field that is set takes the place of the one with its name, in letters of any case;
/// one that is set to nothing is taken away.
pub proof fn fields_are_set_and_taken_away(
    m: Map<Seq<char>, Seq<char>>,
    name: Seq<char>,
    value: Seq<char>,
)
    ensures
        value.len() > 0 ==> overridden(m, name, Some(value)) == m.insert(spelling(m, name), value),
        overridden(m, name, Some(Seq::empty())) == m.remove(spelling(m, name)),
        overridden(m, name, None) == m.remove(spelling(m, name)),
{
}

/// Other sites may ask unless that is switched off: by the project, or for all projects
/// where the project says nothing.
pub proof fn other_sites_are_switched_off(
    global: Option<CorsLayerView>,
    project: Option<CorsLayerView>,
)
    ensures
        project == Some(CorsLayerView::Disabled) ==> cors_of(global, project) is None,
        project is None && global == Some(CorsLayerView::Disabled) ==> cors_of(global, project)
            is None,
        project is Some && project != Some(CorsLayerView::Disabled) ==> cors_of(global, project)
            is Some,
        project is None && global is None ==> cors_of(global, project) == Some(default_cors()),
        default_cors() == Map::<Seq<char>, Seq<char>>::empty().insert(
            "Access-Control-Allow-Origin"@,
            "*"@,
        ),
{
}

/// Settings are written down for a project that has none, and for no other.
pub proof fn first_settings_are_written_once(found: FileTextView, text: Seq<char>)
    ensures
        first_text(true, FileTextView::Missing, text) == Some(text),
        first_text(false, found, text) is None,
        !(found is Missing) ==> first_text(true, found, text) is None,
{
}


/// Fields are set and taken away one after the other, those of the project last.
pub proof fn fields_are_set_one_by_one(
    m: Map<Seq<char>, Seq<char>>,
    p: Seq<(Seq<char>, Option<Seq<char>>)>,
    name: Seq<char>,
    value: Option<Seq<char>>,
    cli: CliView,
    env: EnvironmentView,
    global: LayerView,
    project: LayerView,
    machine: MachineView,
    path: Seq<char>,
)
    ensures
        after_overrides(m, Seq::empty()) == m,
        after_overrides(m, p.push((name, value))) == overridden(
            after_overrides(m, p),
            name,
            value,
        ),
        env.server_tokens is None && project.server_tokens is None && global.server_tokens is None
            && env.tls_enabled is None && project.tls_enabled is None && global.tls_enabled is None
            ==> resolved(cli, env, global, project, machine, path).security_headers
            == with_overrides(
            with_overrides(
                default_headers(
                    false,
                    "cashttpd/"@ + VERSION@ + seq![' ', '('] + machine.os + seq![';', ' ']
                        + machine.arch + seq![')'],
                ),
                global.security_headers,
            ),
            project.security_headers,
        ),
{
    assert(p.push((name, value)).drop_last() =~= p);
    reveal_strlit(" (");
    reveal_strlit(")");
    reveal_strlit("; ");
    assert(" ("@ =~= seq![' ', '(']);
    assert(")"@ =~= seq![')']);
    assert("; "@ =~= seq![';', ' ']);
}

} // verus!
