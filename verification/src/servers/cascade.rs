//! How the directives of nested directories are layered, and whom they let in.

use vstd::prelude::*;

use crate::net::{address, cidr_contains, in_network, IpAddr};
use crate::paths::{
    components, is_same_path, is_within, parent, parent_of, parents_hold_their_children, relative,
    relative_to, same_path, within, within_is_reflexive, within_is_transitive,
};
use crate::servers::htaccess::{
    no_rules, parse, parsed, AccessRule, Order, Require, RequireView, Rules, RulesView,
};
use crate::text::{
    lines, over, replace, replaced, split_lines, split_once, split_once_at, split_words, trim,
    trimmed, words,
};

verus! {

// ---------------------------------------------------------------------------
// Layers
// ---------------------------------------------------------------------------

/// The directives of a directory on top of those of the directories above it.
pub open spec fn layered(parent: RulesView, child: RulesView) -> RulesView {
    RulesView {
        auth_type: over(child.auth_type, parent.auth_type),
        auth_name: over(child.auth_name, parent.auth_name),
        auth_user_file: over(child.auth_user_file, parent.auth_user_file),
        auth_group_file: over(child.auth_group_file, parent.auth_group_file),
        requires: parent.requires + child.requires,
        order: over(child.order, parent.order),
        allow: parent.allow + child.allow,
        deny: parent.deny + child.deny,
        error_documents: parent.error_documents + child.error_documents,
        directory_index: over(child.directory_index, parent.directory_index),
        indexes: over(child.indexes, parent.indexes),
        follow_symlinks: over(child.follow_symlinks, parent.follow_symlinks),
        rewrite_engine: parent.rewrite_engine || child.rewrite_engine,
        rewrite_rules: parent.rewrite_rules + child.rewrite_rules,
        redirects: parent.redirects + child.redirects,
    }
}

/// Appends one list to another.
fn append_all<T: DeepView>(to: &mut Vec<T>, from: Vec<T>)
    ensures
        final(to)@ == old(to)@ + from@,
        final(to).deep_view() == old(to).deep_view() + from.deep_view(),
{
    let mut from = from;
    let ghost a = to.deep_view();
    let ghost b = from.deep_view();
    to.append(&mut from);
    assert(to.deep_view() =~= a + b);
}

impl Rules {
    /// Puts the directives of a directory on top of those of the directories
    /// above it.
    pub fn merge_from(&mut self, child: Rules)
        ensures
            final(self)@ == layered(old(self)@, child@),
    {
        if child.auth_type.is_some() {
            self.auth_type = child.auth_type;
        }
        if child.auth_name.is_some() {
            self.auth_name = child.auth_name;
        }
        if child.auth_user_file.is_some() {
            self.auth_user_file = child.auth_user_file;
        }
        if child.auth_group_file.is_some() {
            self.auth_group_file = child.auth_group_file;
        }
        append_all(&mut self.requires, child.requires);
        if child.order.is_some() {
            self.order = child.order;
        }
        append_all(&mut self.allow, child.allow);
        append_all(&mut self.deny, child.deny);
        append_all(&mut self.error_documents, child.error_documents);
        if child.directory_index.is_some() {
            self.directory_index = child.directory_index;
        }
        if child.indexes.is_some() {
            self.indexes = child.indexes;
        }
        if child.follow_symlinks.is_some() {
            self.follow_symlinks = child.follow_symlinks;
        }
        if child.rewrite_engine {
            self.rewrite_engine = true;
        }
        append_all(&mut self.rewrite_rules, child.rewrite_rules);
        append_all(&mut self.redirects, child.redirects);
    }

    /// Whether a user has to be known to be let in.
    pub fn require_valid_user(&self) -> (r: bool)
        ensures
            r == (self@.requires.len() > 0),
    {
        self.requires.len() > 0
    }

    /// The target that answers `status`, if a directive names one.
    pub fn error_document(&self, status: u16) -> (r: Option<&String>)
        ensures
            match r {
                Some(t) => document(self@.error_documents, status) == Some(t@),
                None => document(self@.error_documents, status) is None,
            },
    {
        let ghost all = self@.error_documents;
        let mut j: usize = self.error_documents.len();
        assert(all.take(j as int) =~= all);
        while j > 0
            invariant
                j <= self.error_documents.len(),
                all == self@.error_documents,
                document(all, status) == document(all.take(j as int), status),
            decreases j,
        {
            assert(all.take(j as int).drop_last() =~= all.take(j - 1));
            assert(all.take(j as int).last() == all[j - 1]);
            if self.error_documents[j - 1].0 == status {
                return Some(&self.error_documents[j - 1].1);
            }
            j = j - 1;
        }
        None
    }
}

/// The target that a list names for a status: the last one counts.
pub open spec fn document(list: Seq<(u16, Seq<char>)>, status: u16) -> Option<Seq<char>>
    decreases list.len(),
{
    if list.len() == 0 {
        None
    } else if list.last().0 == status {
        Some(list.last().1)
    } else {
        document(list.drop_last(), status)
    }
}

/// The directories from `base` down to `dir`; for a `dir` outside, `dir` alone.
pub open spec fn way(base: Seq<char>, dir: Seq<char>) -> Seq<Seq<char>>
    decreases components(dir).len(),
{
    if !same_path(dir, base) && parent(dir) is Some && within(base, parent(dir)->0) {
        proof {
            parents_hold_their_children(dir);
        }
        way(base, parent(dir)->0).push(dir)
    } else {
        seq![dir]
    }
}

/// A directory as seen from `base`, with `/` between its components; nothing for
/// one outside.
pub open spec fn seen_from(base: Seq<char>, dir: Seq<char>) -> Seq<char> {
    if within(base, dir) {
        replace(relative(base, dir), '\\', "/"@)
    } else {
        Seq::empty()
    }
}

/// The directories from `base` down to `dir`, each as seen from `base` too.
pub open spec fn levels(base: Seq<char>, dir: Seq<char>) -> Seq<(Seq<char>, Seq<char>)> {
    way(base, dir).map_values(|d: Seq<char>| (d, seen_from(base, d)))
}

/// The directories from `base` down to `dir`, the topmost first, each with its
/// path seen from `base`: those whose files apply to `dir`.
pub fn cascade_dirs(base: &str, dir: &str) -> (r: Vec<(String, String)>)
    ensures
        r.deep_view() == levels(base@, dir@),
{
    let mut out: Vec<(String, String)> = Vec::new();
    let mut at: String = dir.to_owned();
    assert(levels(base@, at@) + out.deep_view() =~= levels(base@, dir@));
    loop
        invariant
            levels(base@, at@) + out.deep_view() == levels(base@, dir@),
        decreases components(at@).len(),
    {
        let ghost before = out.deep_view();
        let ghost here = (at@, seen_from(base@, at@));
        let seen = if is_within(base, at.as_str()) {
            let rel = relative_to(base, at.as_str());
            replaced(rel.as_str(), '\\', "/")
        } else {
            String::new()
        };
        let up = parent_of(at.as_str());
        let top = is_same_path(at.as_str(), base);
        proof {
            parents_hold_their_children(at@);
        }
        out.insert(0, (at.clone(), seen));
        assert(out.deep_view() =~= seq![here] + before);
        match up {
            Some(p) if !top && is_within(base, p.as_str()) => {
                assert(levels(base@, at@) =~= levels(base@, p@).push(here));
                assert(levels(base@, p@).push(here) + before =~= levels(base@, p@) + (seq![here]
                    + before));
                at = p;
            },
            _ => {
                assert(levels(base@, at@) =~= seq![here]);
                return out;
            },
        }
    }
}

/// The text of the file at a level, if there is one.
pub open spec fn text_at(texts: Seq<Option<Seq<char>>>, i: int) -> Option<Seq<char>> {
    if 0 <= i < texts.len() {
        texts[i]
    } else {
        None
    }
}

/// The directives of the first `n` levels; a level without a file adds none.
pub open spec fn cascade(
    at: Seq<(Seq<char>, Seq<char>)>,
    texts: Seq<Option<Seq<char>>>,
    n: nat,
) -> RulesView
    decreases n,
{
    if n == 0 {
        no_rules()
    } else {
        let above = cascade(at, texts, (n - 1) as nat);
        match text_at(texts, n - 1) {
            Some(t) => layered(above, parsed(t, at[n - 1].1, at[n - 1].0)),
            None => above,
        }
    }
}

/// The directives in force for `dir`, from the texts of the files of the levels
/// that `cascade_dirs` gives, in the same order.
pub fn merge_cascade(base_dir: &str, dir: &str, texts: &Vec<Option<String>>) -> (r: Rules)
    ensures
        r@ == cascade(levels(base_dir@, dir@), texts.deep_view(), levels(base_dir@, dir@).len()),
{
    let at = cascade_dirs(base_dir, dir);
    let ghost all = at.deep_view();
    let ghost ts = texts.deep_view();
    let mut rules = Rules::default();
    let mut i: usize = 0;
    while i < at.len()
        invariant
            i <= at.len(),
            all == at.deep_view(),
            ts == texts.deep_view(),
            rules@ == cascade(all, ts, i as nat),
        decreases at.len() - i,
    {
        assert(all[i as int] == (at@[i as int].0@, at@[i as int].1@));
        if i < texts.len() {
            assert(ts[i as int] == texts@[i as int].deep_view());
            if let Some(t) = &texts[i] {
                let child = parse(t.as_str(), at[i].1.as_str(), at[i].0.as_str());
                rules.merge_from(child);
            }
        }
        i = i + 1;
    }
    rules
}

// ---------------------------------------------------------------------------
// Who is let in
// ---------------------------------------------------------------------------

/// Whether a rule names the client at `ip`.
pub open spec fn names_client(rule: AccessRule, ip: Option<IpAddr>) -> bool {
    match rule {
        AccessRule::All => true,
        AccessRule::Ip(target) => ip == Some(target),
        AccessRule::Cidr(net, bits) => match ip {
            Some(i) => in_network(net, bits, i),
            None => false,
        },
        AccessRule::Host => false,
    }
}

/// Whether some rule of a list names the client at `ip`.
pub open spec fn listed(list: Seq<AccessRule>, ip: Option<IpAddr>) -> bool {
    exists|i: int| 0 <= i < list.len() && names_client(#[trigger] list[i], ip)
}

/// Whether `Order`, `Allow` and `Deny` let a client in.
pub open spec fn client_allowed(r: RulesView, remote: Seq<char>) -> bool {
    let ip = address(remote);
    if r.order is None && r.allow.len() == 0 && r.deny.len() == 0 {
        true
    } else if r.order == Some(Order::DenyAllow) {
        !listed(r.deny, ip) || listed(r.allow, ip)
    } else {
        (r.allow.len() == 0 || listed(r.allow, ip)) && !listed(r.deny, ip)
    }
}

fn list_names(list: &Vec<AccessRule>, ip: Option<IpAddr>) -> (r: bool)
    ensures
        r == listed(list@, ip),
{
    let mut i: usize = 0;
    while i < list.len()
        invariant
            i <= list.len(),
            forall|j: int| 0 <= j < i ==> !names_client(#[trigger] list@[j], ip),
        decreases list.len() - i,
    {
        let hit = match list[i] {
            AccessRule::All => true,
            AccessRule::Ip(target) => match ip {
                Some(x) => x == target,
                None => false,
            },
            AccessRule::Cidr(net, bits) => match ip {
                Some(x) => cidr_contains(net, bits, x),
                None => false,
            },
            AccessRule::Host => false,
        };
        if hit {
            assert(names_client(list@[i as int], ip));
            return true;
        }
        i = i + 1;
    }
    false
}

/// Whether `Order`, `Allow` and `Deny` let the client at `remote_ip` in.
pub fn access_allowed(rules: &Rules, remote_ip: &str) -> (r: bool)
    ensures
        r == client_allowed(rules@, remote_ip@),
{
    if rules.order.is_none() && rules.allow.len() == 0 && rules.deny.len() == 0 {
        return true;
    }
    let ip = IpAddr::parse(remote_ip);
    let deny_first = match rules.order {
        Some(Order::DenyAllow) => true,
        _ => false,
    };
    if deny_first {
        let denied = list_names(&rules.deny, ip);
        !denied || list_names(&rules.allow, ip)
    } else {
        let allowed = rules.allow.len() == 0 || list_names(&rules.allow, ip);
        allowed && !list_names(&rules.deny, ip)
    }
}

/// The members of `group` by the lines of a group file: the first line for the
/// group counts.
pub open spec fn members(file: Seq<Seq<char>>, group: Seq<char>) -> Seq<Seq<char>>
    decreases file.len(),
{
    if file.len() == 0 {
        Seq::empty()
    } else {
        match split_once(trim(file[0]), ':') {
            Some(p) => if trim(p.0) == group {
                words(p.1)
            } else {
                members(file.skip(1), group)
            },
            None => members(file.skip(1), group),
        }
    }
}

/// The members of `group` by the text of a group file; no file has no members.
pub open spec fn group_of(text: Option<Seq<char>>, group: Seq<char>) -> Seq<Seq<char>> {
    match text {
        Some(t) => members(lines(t), group),
        None => Seq::empty(),
    }
}

/// The members of `group` by the text of a group file.
pub fn group_members(file: Option<&str>, group: &str) -> (r: Vec<String>)
    ensures
        r.deep_view() == group_of(file.deep_view(), group@),
{
    let empty: Vec<String> = Vec::new();
    assert(empty.deep_view() =~= Seq::<Seq<char>>::empty());
    let text = match file {
        Some(t) => t,
        None => return empty,
    };
    let list = split_lines(text);
    let ghost all = list.deep_view();
    let mut i: usize = 0;
    assert(all.skip(0) =~= all);
    while i < list.len()
        invariant
            i <= list.len(),
            all == list.deep_view(),
            file.deep_view() == Some(text@),
            empty.deep_view() == Seq::<Seq<char>>::empty(),
            members(lines(text@), group@) == members(all.skip(i as int), group@),
        decreases list.len() - i,
    {
        assert(all.skip(i as int)[0] == list@[i as int]@);
        assert(all.skip(i as int).skip(1) =~= all.skip(i + 1));
        let line = trimmed(list[i].as_str());
        if let Some(p) = split_once_at(line.as_str(), ':') {
            let name = trimmed(p.0.as_str());
            if name.as_str().eq(group) {
                return split_words(p.1.as_str());
            }
        }
        i = i + 1;
    }
    empty
}

/// Whether a list of groups has `user` as a member of one.
pub open spec fn in_some_group(
    groups: Seq<Seq<char>>,
    user: Seq<char>,
    text: Option<Seq<char>>,
) -> bool {
    exists|i: int| 0 <= i < groups.len() && group_of(text, #[trigger] groups[i]).contains(user)
}

/// Whether one `Require` lets `user` in; `text` is the text of the group file.
pub open spec fn requirement_met(
    req: RequireView,
    has_group_file: bool,
    user: Seq<char>,
    text: Option<Seq<char>>,
) -> bool {
    match req {
        RequireView::ValidUser => true,
        RequireView::User(names) => names.contains(user),
        RequireView::Group(groups) => has_group_file && in_some_group(groups, user, text),
    }
}

/// Whether the `Require` directives let `user` in: one of them is enough, and
/// where there is none everybody is let in.
pub open spec fn user_authorized(r: RulesView, user: Seq<char>, text: Option<Seq<char>>) -> bool {
    r.requires.len() == 0 || exists|i: int|
        0 <= i < r.requires.len() && requirement_met(
            #[trigger] r.requires[i],
            r.auth_group_file is Some,
            user,
            text,
        )
}

fn holds_name(list: &Vec<String>, name: &str) -> (r: bool)
    ensures
        r == list.deep_view().contains(name@),
{
    let mut i: usize = 0;
    while i < list.len()
        invariant
            i <= list.len(),
            forall|j: int| 0 <= j < i ==> #[trigger] list.deep_view()[j] != name@,
        decreases list.len() - i,
    {
        if list[i].as_str().eq(name) {
            assert(list.deep_view()[i as int] == name@);
            return true;
        }
        i = i + 1;
    }
    false
}

fn in_group_list(groups: &Vec<String>, user: &str, text: Option<&str>) -> (r: bool)
    ensures
        r == in_some_group(groups.deep_view(), user@, text.deep_view()),
{
    let mut i: usize = 0;
    while i < groups.len()
        invariant
            i <= groups.len(),
            forall|j: int|
                0 <= j < i ==> !group_of(
                    text.deep_view(),
                    #[trigger] groups.deep_view()[j],
                ).contains(user@),
        decreases groups.len() - i,
    {
        let list = group_members(text, groups[i].as_str());
        if holds_name(&list, user) {
            assert(group_of(text.deep_view(), groups.deep_view()[i as int]).contains(user@));
            return true;
        }
        i = i + 1;
    }
    false
}

/// Whether the `Require` directives let `user` in. `group_text` is the text of
/// the group file that the directives name, if it could be read.
pub fn is_authorized(rules: &Rules, user: &str, group_text: Option<&str>) -> (r: bool)
    ensures
        r == user_authorized(rules@, user@, group_text.deep_view()),
{
    if rules.requires.len() == 0 {
        return true;
    }
    let ghost all = rules@.requires;
    let mut i: usize = 0;
    while i < rules.requires.len()
        invariant
            i <= rules.requires.len(),
            all == rules@.requires,
            forall|j: int|
                0 <= j < i ==> !requirement_met(
                    #[trigger] all[j],
                    rules@.auth_group_file is Some,
                    user@,
                    group_text.deep_view(),
                ),
        decreases rules.requires.len() - i,
    {
        assert(all[i as int] == rules.requires@[i as int].deep_view());
        let met = match &rules.requires[i] {
            Require::ValidUser => true,
            Require::User(names) => holds_name(names, user),
            Require::Group(groups) => rules.auth_group_file.is_some() && in_group_list(
                groups,
                user,
                group_text,
            ),
        };
        if met {
            return true;
        }
        i = i + 1;
    }
    false
}

// ---------------------------------------------------------------------------
// Laws
// ---------------------------------------------------------------------------

/// A directory without directives of its own has those of the directories above
/// it, and the topmost directory has its own.
pub proof fn no_rules_change_nothing(r: RulesView)
    ensures
        layered(r, no_rules()) == r,
        layered(no_rules(), r) == r,
{
    let a = layered(r, no_rules());
    assert(a.requires =~= r.requires);
    assert(a.allow =~= r.allow);
    assert(a.deny =~= r.deny);
    assert(a.error_documents =~= r.error_documents);
    assert(a.rewrite_rules =~= r.rewrite_rules);
    assert(a.redirects =~= r.redirects);
    let b = layered(no_rules(), r);
    assert(b.requires =~= r.requires);
    assert(b.allow =~= r.allow);
    assert(b.deny =~= r.deny);
    assert(b.error_documents =~= r.error_documents);
    assert(b.rewrite_rules =~= r.rewrite_rules);
    assert(b.redirects =~= r.redirects);
}

/// Layers can be put together in any grouping.
pub proof fn layering_is_associative(a: RulesView, b: RulesView, c: RulesView)
    ensures
        layered(layered(a, b), c) == layered(a, layered(b, c)),
{
    let x = layered(layered(a, b), c);
    let y = layered(a, layered(b, c));
    assert(x.requires =~= y.requires);
    assert(x.allow =~= y.allow);
    assert(x.deny =~= y.deny);
    assert(x.error_documents =~= y.error_documents);
    assert(x.rewrite_rules =~= y.rewrite_rules);
    assert(x.redirects =~= y.redirects);
}

/// An error document that a directory names wins over those named above it, and
/// the others stay.
pub proof fn nearest_error_document_wins(
    parent: RulesView,
    child: RulesView,
    status: u16,
)
    ensures
        document(layered(parent, child).error_documents, status) == over(
            document(child.error_documents, status),
            document(parent.error_documents, status),
        ),
    decreases child.error_documents.len(),
{
    let p = parent.error_documents;
    let c = child.error_documents;
    if c.len() == 0 {
        assert(p + c =~= p);
    } else {
        let less = RulesView { error_documents: c.drop_last(), ..child };
        assert((p + c).drop_last() =~= p + c.drop_last());
        assert((p + c).last() == c.last());
        nearest_error_document_wins(parent, less, status);
    }
}

/// Without a directive about access every client is let in, and without a
/// `Require` every user is.
pub proof fn open_by_default(r: RulesView, remote: Seq<char>, user: Seq<char>, text: Option<Seq<char>>)
    requires
        r == no_rules(),
    ensures
        client_allowed(r, remote),
        user_authorized(r, user, text),
{
}

/// Under `Order allow,deny` a client that a `Deny` names is kept out, whatever
/// is allowed; under `Order deny,allow` one that an `Allow` names is let in.
pub proof fn last_word_decides(r: RulesView, remote: Seq<char>)
    ensures
        r.order != Some(Order::DenyAllow) && listed(r.deny, address(remote)) ==> !client_allowed(
            r,
            remote,
        ),
        r.order == Some(Order::DenyAllow) && listed(r.allow, address(remote)) ==> client_allowed(
            r,
            remote,
        ),
{
}

/// A directory below one that demands known users demands them too.
pub proof fn requirements_are_kept(parent: RulesView, child: RulesView)
    ensures
        parent.requires.len() > 0 ==> layered(parent, child).requires.len() > 0,
        layered(parent, child).requires.len() == parent.requires.len() + child.requires.len(),
{
}

/// The files that apply to a directory of the site lie in the site, from its top
/// down to that directory.
pub proof fn files_lie_on_the_way(base: Seq<char>, dir: Seq<char>, i: int)
    requires
        within(base, dir),
        0 <= i < levels(base, dir).len(),
    ensures
        within(base, levels(base, dir)[i].0),
        within(levels(base, dir)[i].0, dir),
    decreases components(dir).len(),
{
    within_is_reflexive(dir);
    parents_hold_their_children(dir);
    if !same_path(dir, base) && parent(dir) is Some && within(base, parent(dir)->0) {
        let up = parent(dir)->0;
        if i < way(base, up).len() {
            assert(levels(base, dir)[i] == levels(base, up)[i]);
            files_lie_on_the_way(base, up, i);
            within_is_transitive(levels(base, dir)[i].0, up, dir);
        }
    }
}

} // verus!
