//! Rules along the way to what is asked for, and scripts on it.

use vstd::prelude::*;

use crate::paths::{below, parent, same_path, under_dir, within};
use crate::servers::cascade::{cascade, layered, seen_from, way};
use crate::servers::files::FoundView;
use crate::servers::htaccess::{no_rules, parsed};
use crate::servers::lookup::{
    candidate, directories, first_flagged, rules_in, steps, upwards,
};
use crate::servers::scripts::{
    ancestors, first_script, header_variable, header_variables, interpreter_bin, interpreter_places,
    route_of, segments, silent_detail, working_dir, ExitView, ScriptRouteView,
};
use crate::outside::lossy_text;
use crate::text::{join, same_letters, split, words};

verus! {

/// The rules that hold in a directory are those of the directories on the way to it, from
/// the one that is served down; one without rules changes nothing.
pub proof fn rules_are_gathered_on_the_way(
    at: Seq<(Seq<char>, Seq<char>)>,
    texts: Seq<Option<Seq<char>>>,
    n: nat,
    text: Seq<char>,
)
    requires
        n < at.len(),
        n < texts.len(),
    ensures
        cascade(at, texts, 0) == no_rules(),
        texts[n as int] == Some(text) ==> cascade(at, texts, n + 1) == layered(
            cascade(at, texts, n),
            parsed(text, at[n as int].1, at[n as int].0),
        ),
        texts[n as int] is None ==> cascade(at, texts, n + 1) == cascade(at, texts, n),
{
}

/// The way to a directory goes through those that hold it, down from the one that is
/// served, and ends with it.
pub proof fn ways_lead_down(base: Seq<char>, dir: Seq<char>, above: Seq<char>)
    ensures
        way(base, dir).last() == dir,
        same_path(dir, base) ==> way(base, dir) == seq![dir],
        !same_path(dir, base) && parent(dir) == Some(above) && within(base, above) ==> way(
            base,
            dir,
        ) == way(base, above).push(dir),
        !within(base, dir) ==> rules_in(base, dir, Seq::empty()) == no_rules(),
        !within(base, dir) ==> seen_from(base, dir) == Seq::<char>::empty(),
{
}

/// Of several directories the first that is one is taken, and else the last.
pub proof fn the_first_directory_is_taken(list: Seq<Seq<char>>, flags: Seq<bool>, i: int, k: int)
    requires
        0 <= i <= k <= list.len(),
        list.len() == flags.len(),
        forall|j: int| i <= j < k ==> !(#[trigger] flags[j]),
    ensures
        k < list.len() && flags[k] ==> first_flagged(list, flags, i) == list[k],
        k == list.len() ==> first_flagged(list, flags, i) == list.last(),
    decreases k - i,
{
    if i < k {
        assert(!flags[i]);
        the_first_directory_is_taken(list, flags, i + 1, k);
    }
}

/// A path that is not there may go on behind a script: the nearest file before its end
/// that is one is run, and told what stood behind it.
pub proof fn scripts_are_found_on_the_way(
    base: Seq<char>,
    decoded: Seq<char>,
    handlers: Map<Seq<char>, Option<Seq<char>>>,
    found: Seq<Option<FoundView>>,
    k: int,
    f: FoundView,
)
    requires
        0 <= k < segments(decoded).len(),
        k < found.len(),
    ensures
        found[k] == Some(f) && within(base, f.path) && f.is_file && route_of(
            base,
            f.path,
            handlers,
        ) is Some ==> ({
            let s = first_script(base, decoded, handlers, found, k);
            &&& s is Some
            &&& s->0.path == f.path
            &&& s->0.route == route_of(base, f.path, handlers)->0
            &&& s->0.path_info == seq!['/'] + join(
                segments(decoded).skip(segments(decoded).len() - 1 - k),
                "/"@,
            )
        }),
        found[k] is None ==> first_script(base, decoded, handlers, found, k) == first_script(
            base,
            decoded,
            handlers,
            found,
            k + 1,
        ),
        found[k] == Some(f) && !f.is_file ==> first_script(base, decoded, handlers, found, k)
            == first_script(base, decoded, handlers, found, k + 1),
        found[k] == Some(f) && !within(base, f.path) ==> first_script(
            base,
            decoded,
            handlers,
            found,
            k,
        ) == first_script(base, decoded, handlers, found, k + 1),
        first_script(base, decoded, handlers, found, segments(decoded).len() as int) is None,
{
    reveal_strlit("/");
    assert("/"@ =~= seq!['/']);
}

/// What is looked at for that are the directories above the path, the nearest first.
pub proof fn the_nearest_comes_first(base: Seq<char>, decoded: Seq<char>, k: int)
    requires
        0 <= k < segments(decoded).len(),
    ensures
        ancestors(base, decoded).len() == segments(decoded).len(),
        k < segments(decoded).len() - 1 ==> ancestors(base, decoded)[k] == under_dir(
            base,
            join(segments(decoded).take(segments(decoded).len() - 1 - k), "/"@),
        ),
        k == segments(decoded).len() - 1 ==> ancestors(base, decoded)[k] == base,
{
}

/// An interpreter is looked for where the user looks for programs, in that order; and one
/// with a path only there.
pub proof fn interpreters_are_looked_for(bin: Seq<char>, places: Seq<char>, i: int)
    requires
        bin.len() > 0,
        0 <= i < split(places, ':').len(),
    ensures
        bin[0] == '/' ==> interpreter_places(bin, Some(places)) == seq![bin],
        bin[0] != '/' ==> interpreter_places(bin, Some(places)).len() == split(places, ':').len()
            && interpreter_places(bin, Some(places))[i] == under_dir(split(places, ':')[i], bin),
        bin[0] != '/' ==> interpreter_places(bin, None) == Seq::<Seq<char>>::empty(),
{
}

/// The interpreter is the first word of its command.
pub proof fn interpreters_are_named_first(command: Seq<char>)
    ensures
        words(command).len() > 0 ==> interpreter_bin(ScriptRouteView::Interpreter(command)) == Some(
            words(command)[0],
        ),
        words(command).len() == 0 ==> interpreter_bin(ScriptRouteView::Interpreter(command))
            is None,
        interpreter_bin(ScriptRouteView::ExecDirect) is None,
{
}

/// A script is told every header field but the two that it gets under other names.
pub proof fn header_fields_are_told(
    start: Seq<(Seq<char>, Seq<char>)>,
    p: Seq<(Seq<char>, Seq<char>)>,
    name: Seq<char>,
    value: Seq<char>,
)
    ensures
        header_variables(start, Seq::empty()) == start,
        same_letters(name, "content-type"@) || same_letters(name, "content-length"@)
            ==> header_variables(start, p.push((name, value))) == header_variables(start, p),
        !same_letters(name, "content-type"@) && !same_letters(name, "content-length"@)
            ==> header_variables(start, p.push((name, value))) == header_variables(start, p).push(
            (header_variable(name), value),
        ),
{
    assert(p.push((name, value)).drop_last() =~= p);
}

/// A script runs in its own directory; and one that says nothing is told of with how it
/// ended and what it complained of.
pub proof fn silent_scripts_are_told_of(
    base: Seq<char>,
    path: Seq<char>,
    dir: Seq<char>,
    program: Seq<char>,
    status: Seq<char>,
    errors: Seq<u8>,
)
    ensures
        parent(path) == Some(dir) ==> working_dir(base, path) == dir,
        parent(path) is None ==> working_dir(base, path) == base,
        silent_detail(program, ExitView::Success, errors) == lossy_text(errors),
        silent_detail(program, ExitView::Failure(status), errors) == program + " exited with "@
            + status + seq!['\n'] + lossy_text(errors),
        silent_detail(program, ExitView::Unknown(status), errors) == "failed to wait on "@ + program
            + seq![':', ' '] + status,
{
    reveal_strlit("\n");
    reveal_strlit(": ");
    assert("\n"@ =~= seq!['\n']);
    assert(": "@ =~= seq![':', ' ']);
}


/// The directory whose rules count is looked for at what is asked for first, and then
/// upwards as far as the directory that is served.
pub proof fn directories_are_looked_for_upwards(
    base: Seq<char>,
    decoded: Seq<char>,
    dir: Seq<char>,
    above: Seq<char>,
    n: nat,
)
    ensures
        directories(base, decoded)[0] == candidate(base, decoded),
        directories(base, decoded).last() == base,
        parent(candidate(base, decoded)) == Some(dir) ==> directories(base, decoded)[1] == dir,
        upwards(base, dir, n)[0] == dir,
        n > 0 && parent(dir) == Some(above) && within(base, above) ==> upwards(base, dir, n)
            == seq![dir] + upwards(base, above, (n - 1) as nat),
        parent(dir) == Some(above) && !within(base, above) ==> upwards(base, dir, n) == seq![
            dir,
            base,
        ],
{
    let c = candidate(base, decoded);
    let first = match parent(c) {
        Some(p) => p,
        None => base,
    };
    lemma_upwards(base, first, c.len());
    lemma_upwards(base, dir, n);
    let u = upwards(base, first, c.len());
    assert(directories(base, decoded) == seq![c] + u);
    assert((seq![c] + u).last() == u.last());
}

proof fn lemma_upwards(base: Seq<char>, dir: Seq<char>, n: nat)
    ensures
        upwards(base, dir, n).len() >= 2,
        upwards(base, dir, n)[0] == dir,
        upwards(base, dir, n).last() == base,
    decreases n,
{
    if n > 0 {
        if let Some(p) = parent(dir) {
            if within(base, p) {
                lemma_upwards(base, p, (n - 1) as nat);
                let u = upwards(base, p, (n - 1) as nat);
                assert((seq![dir] + u).last() == u.last());
            }
        }
    }
}

/// Links are looked for at each step of the way from the directory that is served down to
/// what is asked for.
pub proof fn each_step_down_is_looked_at(base: Seq<char>, path: Seq<char>, i: int)
    requires
        within(base, path),
        0 <= i < below(base, path).len(),
    ensures
        steps(base, path).len() == below(base, path).len(),
        i == 0 ==> steps(base, path)[i] == under_dir(base, below(base, path)[0]),
        i > 0 ==> steps(base, path)[i] == under_dir(
            steps(base, path)[i - 1],
            below(base, path)[i],
        ),
{
    reveal_with_fuel(crate::servers::lookup::step_down, 2);
}

} // verus!
