//! What the operating system has to do with the server: the user that it runs as,
//! and the directories that it keeps its files in.

use vstd::prelude::*;

use crate::digits::{number, parse_number};
use crate::paths::{join_path, under_dir};
use crate::text::{before, before_char, chars_of, lines, split, split_at_char, split_lines};

verus! {

/// The user and the group that the server runs as when root starts it.
pub const SERVICE_USER: &'static str = "cashttpd";

/// The number of that user.
pub const SERVICE_UID: u32 = 8877;

/// The number of that group.
pub const SERVICE_GID: u32 = 8877;

/// What keeps the programs that the server starts apart from it, on Unix.
pub fn sandboxing_posture() -> (r: &'static str)
    ensures
        r@ == "privilege drop only (root, if started as root, drops to the dedicated cashttpd service user/group after binding); no process-tree isolation, cgroup/rlimit containment, or seccomp filtering is applied to spawned CGI/script or framework dev-server child processes"@,
{
    "privilege drop only (root, if started as root, drops to the dedicated cashttpd service user/group after binding); no process-tree isolation, cgroup/rlimit containment, or seccomp filtering is applied to spawned CGI/script or framework dev-server child processes"
}

/// What keeps the programs that the server starts apart from it where there are
/// no such users.
pub fn bare_posture() -> (r: &'static str)
    ensures
        r@ == "no privilege drop or process containment on this platform; CGI/script and framework dev-server child processes run with the same privileges as cashttpd itself"@,
{
    "no privilege drop or process containment on this platform; CGI/script and framework dev-server child processes run with the same privileges as cashttpd itself"
}

// ---------------------------------------------------------------------------
// The user
// ---------------------------------------------------------------------------

/// The line of the server's user or group in a list of them.
pub open spec fn account_in(l: Seq<Seq<char>>, i: int) -> Option<Seq<char>>
    decreases l.len() - i,
{
    if i < 0 || i >= l.len() {
        None
    } else if before(l[i], ':') == SERVICE_USER@ {
        Some(l[i])
    } else {
        account_in(l, i + 1)
    }
}

/// The number in the third field of a line, unless it is missing or that of root.
pub open spec fn number_in(line: Seq<char>) -> Option<u32> {
    let f = split(line, ':');
    if f.len() > 2 {
        match number(f[2], 10, 0xffff_ffff) {
            Some(n) => if n > 0 {
                Some(n as u32)
            } else {
                None
            },
            None => None,
        }
    } else {
        None
    }
}

/// The number of the server's user or group, from its line in a list of them, or
/// the one that it has by default.
pub open spec fn account_number(text: Seq<char>, default: u32) -> u32 {
    match account_in(lines(text), 0) {
        Some(line) => match number_in(line) {
            Some(n) => n,
            None => default,
        },
        None => default,
    }
}

/// Whether a list of users or groups has the one of the server.
pub open spec fn has_account(text: Seq<char>) -> bool {
    account_in(lines(text), 0) is Some
}

/// The line of the group.
pub const GROUP_LINE: &'static str = "cashttpd:x:8877:\n";

/// The line of the user.
pub const USER_LINE: &'static str =
    "cashttpd:x:8877:8877:cashttpd service user:/nonexistent:/sbin/nologin\n";

fn account_line(text: &str) -> (r: Option<String>)
    ensures
        r.deep_view() == account_in(lines(text@), 0),
{
    let all = split_lines(text);
    let ghost l = all.deep_view();
    let n: usize = all.len();
    let mut i: usize = 0;
    while i < n
        invariant
            i <= n,
            n == all@.len(),
            l == all.deep_view(),
            l == lines(text@),
            account_in(l, 0) == account_in(l, i as int),
        decreases n - i,
    {
        assert(l[i as int] == all@[i as int]@);
        let name = before_char(all[i].as_str(), ':');
        if name.as_str().eq(SERVICE_USER) {
            return Some(all[i].clone());
        }
        i = i + 1;
    }
    None
}

fn account_id(line: &Option<String>, default: u32) -> (r: u32)
    ensures
        r == (match line {
            Some(l) => match number_in(l@) {
                Some(n) => n,
                None => default,
            },
            None => default,
        }),
{
    if let Some(l) = line {
        let fields = split_at_char(l.as_str(), ':');
        let ghost f = fields.deep_view();
        if fields.len() > 2 {
            assert(f[2] == fields@[2]@);
            if let Some(n) = parse_number(fields[2].as_str(), 10, 0xffff_ffff) {
                if n > 0 {
                    return n as u32;
                }
            }
        }
    }
    default
}

/// A step on the way to the user that the server runs as.
#[derive(Debug, Clone, Copy, PartialEq, Eq, Structural)]
pub enum PrivilegeStep {
    /// The line of the group is added to the list of groups.
    AddGroup,
    /// The line of the user is added to the list of users.
    AddUser,
    /// The group is taken on.
    TakeGroup(u32),
    /// The user is taken on.
    TakeUser(u32),
}

/// The steps to the user that the server runs as: none unless root starts it. What
/// is missing is added, and then the numbers of the lists are taken on.
/// The group is taken on first, since the user may not do so any more.
pub open spec fn privilege_steps(root: bool, group: Seq<char>, passwd: Seq<char>) -> Seq<
    PrivilegeStep,
> {
    if !root {
        Seq::empty()
    } else {
        (if has_account(group) {
            Seq::empty()
        } else {
            seq![PrivilegeStep::AddGroup]
        }) + (if has_account(passwd) {
            Seq::empty()
        } else {
            seq![PrivilegeStep::AddUser]
        }) + seq![
            PrivilegeStep::TakeGroup(account_number(group, SERVICE_GID)),
            PrivilegeStep::TakeUser(account_number(passwd, SERVICE_UID)),
        ]
    }
}

/// The steps to the user that the server runs as, given whether root starts it
/// and what the lists of groups and users hold.
pub fn drop_privileges_if_root(root: bool, group: &str, passwd: &str) -> (r: Vec<PrivilegeStep>)
    ensures
        r@ == privilege_steps(root, group@, passwd@),
{
    let mut out: Vec<PrivilegeStep> = Vec::new();
    if !root {
        assert(out@ =~= Seq::<PrivilegeStep>::empty());
        return out;
    }
    let group_line = account_line(group);
    let user_line = account_line(passwd);
    if group_line.is_none() {
        out.push(PrivilegeStep::AddGroup);
    }
    if user_line.is_none() {
        out.push(PrivilegeStep::AddUser);
    }
    out.push(PrivilegeStep::TakeGroup(account_id(&group_line, SERVICE_GID)));
    out.push(PrivilegeStep::TakeUser(account_id(&user_line, SERVICE_UID)));
    assert(out@ =~= privilege_steps(root, group@, passwd@));
    out
}

/// Whoever is not root stays who they are.
pub proof fn others_stay_who_they_are(group: Seq<char>, passwd: Seq<char>)
    ensures
        privilege_steps(false, group, passwd).len() == 0,
{
}

/// Root always takes on the group of the server and then its user, with the numbers
/// that they have in the lists, and nothing comes after that. Neither is root.
pub proof fn root_never_stays(group: Seq<char>, passwd: Seq<char>)
    ensures
        ({
            let s = privilege_steps(true, group, passwd);
            s.len() >= 2 && s.last() == PrivilegeStep::TakeUser(
                account_number(passwd, SERVICE_UID),
            ) && s[s.len() - 2] == PrivilegeStep::TakeGroup(account_number(group, SERVICE_GID))
        }),
        account_number(passwd, SERVICE_UID) != 0,
        account_number(group, SERVICE_GID) != 0,
{
}

// ---------------------------------------------------------------------------
// Directories
// ---------------------------------------------------------------------------

/// A family of operating systems.
#[derive(Debug, Clone, Copy, PartialEq, Eq, Structural)]
pub enum Family {
    /// Linux, the BSDs and the like.
    Unix,
    /// macOS.
    MacOs,
    /// Windows.
    Windows,
}

/// The directory of a user, or the current one.
pub open spec fn home_of(home: Option<Seq<char>>) -> Seq<char> {
    match home {
        Some(h) => h,
        None => "."@,
    }
}

/// The directory of the server in another one.
pub open spec fn own_dir(base: Seq<char>) -> Seq<char> {
    under_dir(under_dir(base, "casapps"@), "cashttpd"@)
}

/// Whether text is the name of a drive of Windows.
pub open spec fn is_drive(s: Seq<char>) -> bool {
    s.len() == 2 && s[1] == ':' && ('a' <= s[0] <= 'z' || 'A' <= s[0] <= 'Z')
}

/// `name` in the directory `a`, on Windows.
pub open spec fn in_folder(a: Seq<char>, name: Seq<char>) -> Seq<char> {
    if a.len() == 0 || a.last() == '/' || a.last() == '\\' || is_drive(a) {
        a + name
    } else {
        a + "\\"@ + name
    }
}

/// A directory of the server on Windows: in the one that a setting names, or that
/// of the user.
pub open spec fn own_folder(set: Option<Seq<char>>, home: Option<Seq<char>>, name: Seq<char>) -> Seq<
    char,
> {
    let base = match set {
        Some(d) => d,
        None => home_of(home),
    };
    in_folder(in_folder(in_folder(base, "casapps"@), "cashttpd"@), name)
}

/// A directory that a setting names, or one of the user.
pub open spec fn set_or_home(set: Option<Seq<char>>, home: Option<Seq<char>>, rel: Seq<char>) -> Seq<
    char,
> {
    match set {
        Some(d) => d,
        None => under_dir(home_of(home), rel),
    }
}

/// Where the configuration of a user is kept.
pub open spec fn config_path(family: Family, home: Option<Seq<char>>, set: Option<Seq<char>>) -> Seq<
    char,
> {
    match family {
        Family::MacOs => under_dir(
            own_dir(under_dir(home_of(home), "Library/Application Support"@)),
            "config"@,
        ),
        Family::Windows => own_folder(set, home, "config"@),
        Family::Unix => own_dir(set_or_home(set, home, ".config"@)),
    }
}

/// Where the data of a user is kept.
pub open spec fn data_path(family: Family, home: Option<Seq<char>>, set: Option<Seq<char>>) -> Seq<
    char,
> {
    match family {
        Family::MacOs => under_dir(
            own_dir(under_dir(home_of(home), "Library/Application Support"@)),
            "data"@,
        ),
        Family::Windows => own_folder(set, home, "data"@),
        Family::Unix => own_dir(set_or_home(set, home, ".local/share"@)),
    }
}

/// Where the logs of a user are kept.
pub open spec fn log_path(family: Family, home: Option<Seq<char>>, set: Option<Seq<char>>) -> Seq<
    char,
> {
    match family {
        Family::MacOs => own_dir(under_dir(home_of(home), "Library/Logs"@)),
        Family::Windows => own_folder(set, home, "logs"@),
        Family::Unix => under_dir(own_dir(set_or_home(set, home, ".local/state"@)), "logs"@),
    }
}

fn in_home(home: &Option<String>, rel: &str) -> (r: String)
    ensures
        r@ == under_dir(home_of(home.deep_view()), rel@),
{
    match home {
        Some(h) => join_path(h.as_str(), rel),
        None => join_path(".", rel),
    }
}

fn in_own_dir(base: &str) -> (r: String)
    ensures
        r@ == own_dir(base@),
{
    let org = join_path(base, "casapps");
    join_path(org.as_str(), "cashttpd")
}

fn join_folder(a: &str, name: &str) -> (r: String)
    ensures
        r@ == in_folder(a@, name@),
{
    let v = chars_of(a);
    let n: usize = v.len();
    let mut out = a.to_owned();
    let drive = n == 2 && v[1] == ':' && (('a' <= v[0] && v[0] <= 'z') || ('A' <= v[0] && v[0]
        <= 'Z'));
    if !(n == 0 || v[n - 1] == '/' || v[n - 1] == '\\' || drive) {
        out.append("\\");
    }
    out.append(name);
    out
}

fn in_own_folder(set: &Option<String>, home: &Option<String>, name: &str) -> (r: String)
    ensures
        r@ == own_folder(set.deep_view(), home.deep_view(), name@),
{
    let base = match (set, home) {
        (Some(d), _) => d.clone(),
        (None, Some(h)) => h.clone(),
        (None, None) => ".".to_owned(),
    };
    let org = join_folder(base.as_str(), "casapps");
    let own = join_folder(org.as_str(), "cashttpd");
    join_folder(own.as_str(), name)
}

fn set_or_in_home(set: &Option<String>, home: &Option<String>, rel: &str) -> (r: String)
    ensures
        r@ == set_or_home(set.deep_view(), home.deep_view(), rel@),
{
    match set {
        Some(d) => d.clone(),
        None => in_home(home, rel),
    }
}

/// Where the configuration of a user is kept: `HOME` and `XDG_CONFIG_HOME` decide,
/// on Windows `USERPROFILE` and `AppData`.
pub fn config_dir(family: Family, home: &Option<String>, set: &Option<String>) -> (r: String)
    ensures
        r@ == config_path(family, home.deep_view(), set.deep_view()),
{
    match family {
        Family::MacOs => {
            let base = in_home(home, "Library/Application Support");
            let own = in_own_dir(base.as_str());
            join_path(own.as_str(), "config")
        },
        Family::Windows => in_own_folder(set, home, "config"),
        Family::Unix => {
            let base = set_or_in_home(set, home, ".config");
            in_own_dir(base.as_str())
        },
    }
}

/// Where the data of a user is kept: `HOME` and `XDG_DATA_HOME` decide, on
/// Windows `USERPROFILE` and `LocalAppData`.
pub fn data_dir(family: Family, home: &Option<String>, set: &Option<String>) -> (r: String)
    ensures
        r@ == data_path(family, home.deep_view(), set.deep_view()),
{
    match family {
        Family::MacOs => {
            let base = in_home(home, "Library/Application Support");
            let own = in_own_dir(base.as_str());
            join_path(own.as_str(), "data")
        },
        Family::Windows => in_own_folder(set, home, "data"),
        Family::Unix => {
            let base = set_or_in_home(set, home, ".local/share");
            in_own_dir(base.as_str())
        },
    }
}

/// Where the logs of a user are kept: `HOME` and `XDG_STATE_HOME` decide, on
/// Windows `USERPROFILE` and `LocalAppData`.
pub fn log_dir(family: Family, home: &Option<String>, set: &Option<String>) -> (r: String)
    ensures
        r@ == log_path(family, home.deep_view(), set.deep_view()),
{
    match family {
        Family::MacOs => {
            let base = in_home(home, "Library/Logs");
            in_own_dir(base.as_str())
        },
        Family::Windows => in_own_folder(set, home, "logs"),
        Family::Unix => {
            let base = set_or_in_home(set, home, ".local/state");
            let own = in_own_dir(base.as_str());
            join_path(own.as_str(), "logs")
        },
    }
}

} // verus!
