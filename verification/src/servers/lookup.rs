//! Looking up what a path names, and which directives apply there.

use vstd::prelude::*;

use crate::paths::{
    below, components, components_of, is_within, join_path, parent, parent_of, under_dir, within,
};
use crate::servers::cascade::{cascade, levels, merge_cascade};
use crate::servers::htaccess::{no_rules, Rules, RulesView};
use crate::text::{trim_start, trim_start_of, Class};

verus! {

/// What a path names in the served directory.
pub open spec fn candidate(base: Seq<char>, decoded: Seq<char>) -> Seq<char> {
    let r = trim_start(decoded, Class::One('/'));
    if r.len() == 0 {
        base
    } else {
        under_dir(base, r)
    }
}

/// What a path names in the served directory.
pub fn candidate_path(base_dir: &str, decoded: &str) -> (r: String)
    ensures
        r@ == candidate(base_dir@, decoded@),
{
    let rest = trim_start_of(decoded, Class::One('/'));
    if rest.as_str().is_empty() {
        base_dir.to_owned()
    } else {
        join_path(base_dir, rest.as_str())
    }
}

/// A directory and those above it that lie in the served one, and then the
/// served one; not more than so many.
pub open spec fn upwards(base: Seq<char>, dir: Seq<char>, n: nat) -> Seq<Seq<char>>
    decreases n,
{
    if n == 0 {
        seq![dir, base]
    } else {
        match parent(dir) {
            Some(p) => if within(base, p) {
                seq![dir] + upwards(base, p, (n - 1) as nat)
            } else {
                seq![dir, base]
            },
            None => seq![dir, base],
        }
    }
}

/// The directories whose directives may apply to a path: what it names, and what
/// lies above that.
pub open spec fn directories(base: Seq<char>, decoded: Seq<char>) -> Seq<Seq<char>> {
    let c = candidate(base, decoded);
    let first = match parent(c) {
        Some(p) => p,
        None => base,
    };
    seq![c] + upwards(base, first, c.len())
}

/// The directories whose directives may apply to a path. The first of them that
/// is one counts.
pub fn rule_dirs(base_dir: &str, decoded: &str) -> (r: Vec<String>)
    ensures
        r.deep_view() == directories(base_dir@, decoded@),
{
    let c = candidate_path(base_dir, decoded);
    let chars = crate::text::chars_of(c.as_str());
    let mut fuel: usize = chars.len();
    let mut out: Vec<String> = Vec::new();
    let mut dir = match parent_of(c.as_str()) {
        Some(p) => p,
        None => base_dir.to_owned(),
    };
    let ghost first = dir@;
    let ghost total = fuel as nat;
    out.push(c);
    assert(out.deep_view() =~= seq![c@]);
    loop
        invariant
            directories(base_dir@, decoded@) == out.deep_view() + upwards(
                base_dir@,
                dir@,
                fuel as nat,
            ),
        decreases fuel,
    {
        let ghost before = out.deep_view();
        let ghost here = dir@;
        let up = if fuel == 0 {
            None
        } else {
            parent_of(dir.as_str())
        };
        let inside = match &up {
            Some(p) => is_within(base_dir, p.as_str()),
            None => false,
        };
        out.push(dir);
        assert(out.deep_view() =~= before.push(here));
        match up {
            Some(p) => {
                if inside {
                    assert(before + (seq![here] + upwards(base_dir@, p@, (fuel - 1) as nat))
                        =~= before.push(here) + upwards(base_dir@, p@, (fuel - 1) as nat));
                    fuel = fuel - 1;
                    dir = p;
                } else {
                    out.push(base_dir.to_owned());
                    assert(out.deep_view() =~= before + seq![here, base_dir@]);
                    return out;
                }
            },
            None => {
                out.push(base_dir.to_owned());
                assert(out.deep_view() =~= before + seq![here, base_dir@]);
                return out;
            },
        }
    }
}

/// The first of a list for which a flag stands, from a place on; or the last.
pub open spec fn first_flagged(list: Seq<Seq<char>>, flags: Seq<bool>, i: int) -> Seq<char>
    decreases list.len() - i,
{
    if i < 0 || i >= list.len() {
        list.last()
    } else if i < flags.len() && flags[i] {
        list[i]
    } else {
        first_flagged(list, flags, i + 1)
    }
}

/// The directory whose directives apply, given which of a list are directories.
pub fn rules_dir(dirs: &Vec<String>, is_dir: &Vec<bool>) -> (r: String)
    requires
        dirs@.len() > 0,
    ensures
        r@ == first_flagged(dirs.deep_view(), is_dir@, 0),
{
    let ghost all = dirs.deep_view();
    let n: usize = dirs.len();
    let mut i: usize = 0;
    while i < n
        invariant
            i <= n,
            n == dirs@.len(),
            all == dirs.deep_view(),
            first_flagged(all, is_dir@, 0) == first_flagged(all, is_dir@, i as int),
        decreases n - i,
    {
        if i < is_dir.len() && is_dir[i] {
            assert(all[i as int] == dirs@[i as int]@);
            return dirs[i].clone();
        }
        i = i + 1;
    }
    assert(all.last() == dirs@[n - 1]@);
    dirs[n - 1].clone()
}

/// The directives that apply in a directory, given the texts of the files from
/// the served directory down to it. Outside the served directory none apply.
pub open spec fn rules_in(
    base: Seq<char>,
    dir: Seq<char>,
    texts: Seq<Option<Seq<char>>>,
) -> RulesView {
    if within(base, dir) {
        cascade(levels(base, dir), texts, levels(base, dir).len())
    } else {
        no_rules()
    }
}

/// The directives that apply in a directory, given the texts of the files from
/// the served directory down to it.
pub fn htaccess_rules_for(base_dir: &str, dir: &str, texts: &Vec<Option<String>>) -> (r: Rules)
    ensures
        r@ == rules_in(base_dir@, dir@, texts.deep_view()),
{
    if is_within(base_dir, dir) {
        merge_cascade(base_dir, dir, texts)
    } else {
        Rules::default()
    }
}

/// A directory with the first components of a path below it.
pub open spec fn step_down(base: Seq<char>, c: Seq<Seq<char>>, n: int) -> Seq<char>
    decreases n,
{
    if n <= 0 {
        base
    } else {
        under_dir(step_down(base, c, n - 1), c[n - 1])
    }
}

/// What a path goes through below the served directory; nothing for a path
/// outside.
pub open spec fn steps(base: Seq<char>, path: Seq<char>) -> Seq<Seq<char>> {
    if within(base, path) {
        Seq::new(below(base, path).len(), |i: int| step_down(base, below(base, path), i + 1))
    } else {
        Seq::empty()
    }
}

/// What a path goes through below the served directory, any of which may be a
/// symbolic link.
pub fn path_steps(base_dir: &str, path: &str) -> (r: Vec<String>)
    ensures
        r.deep_view() == steps(base_dir@, path@),
{
    let mut out: Vec<String> = Vec::new();
    if !is_within(base_dir, path) {
        assert(out.deep_view() =~= steps(base_dir@, path@));
        return out;
    }
    let a = components_of(base_dir);
    let b = components_of(path);
    let ghost c = below(base_dir@, path@);
    let n: usize = a.len();
    let m: usize = b.len();
    assert(a.deep_view().len() == n && b.deep_view().len() == m);
    let mut cur = base_dir.to_owned();
    let mut i: usize = n;
    while i < m
        invariant
            n <= i <= m,
            m == b@.len(),
            b.deep_view() == components(path@),
            n == components(base_dir@).len(),
            c == below(base_dir@, path@),
            cur@ == step_down(base_dir@, c, i - n),
            out@.len() == i - n,
            forall|j: int| 0 <= j < i - n ==> (#[trigger] out@[j])@ == step_down(base_dir@, c, j + 1),
        decreases m - i,
    {
        assert(c[i - n] == b@[i as int]@);
        cur = join_path(cur.as_str(), b[i].as_str());
        out.push(cur.clone());
        i = i + 1;
    }
    assert(c.len() == m - n);
    assert(out.deep_view() =~= steps(base_dir@, path@)) by {
        assert forall|j: int| 0 <= j < m - n implies #[trigger] out.deep_view()[j] == steps(
            base_dir@,
            path@,
        )[j] by {
            assert(out.deep_view()[j] == out@[j]@);
        }
    }
    out
}

/// The directives of a path come from the served directory or a directory in it.
pub proof fn directives_come_from_inside(
    base: Seq<char>,
    dir: Seq<char>,
    texts: Seq<Option<Seq<char>>>,
)
    ensures
        !within(base, dir) ==> rules_in(base, dir, texts) == no_rules(),
{
}

} // verus!
