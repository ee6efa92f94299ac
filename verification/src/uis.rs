//! How the program shows itself, and what it is asked to do.

use vstd::prelude::*;

use crate::supports::version::{
    build_date, date_of_epoch, BUILD_EPOCH, COMMIT_ID, OFFICIAL_SITE, VERSION,
};
use crate::text::{lower, lowered};

verus! {

/// How the program shows itself.
#[derive(Debug, Clone, Copy, PartialEq, Eq, Structural)]
pub enum UiMode {
    /// On the whole screen.
    Tui,
    /// In lines.
    Cli,
}

/// Whether an argument calls for lines: what prints and ends, and the server
/// itself.
pub open spec fn forces_lines(arg: Seq<char>) -> bool {
    arg == "serve"@ || arg == "--daemon"@ || arg == "--quiet"@ || arg == "--config-test"@ || arg
        == "-t"@ || arg == "--version"@ || arg == "-v"@ || arg == "--help"@ || arg == "-h"@ || arg
        == "--licenses"@ || arg == "--credits"@
}

fn is_forcing(arg: &str) -> (r: bool)
    ensures
        r == forces_lines(arg@),
{
    arg.eq("serve") || arg.eq("--daemon") || arg.eq("--quiet") || arg.eq("--config-test") || arg.eq(
        "-t",
    ) || arg.eq("--version") || arg.eq("-v") || arg.eq("--help") || arg.eq("-h") || arg.eq(
        "--licenses",
    ) || arg.eq("--credits")
}

/// What the program was started in.
pub struct Terminal {
    /// What `NO_COLOR` says, if it is set.
    pub no_color: Option<String>,
    /// Whether the input is a terminal.
    pub stdin_tty: bool,
    /// Whether the output is a terminal.
    pub stdout_tty: bool,
    /// What `TERM` says, if it is set.
    pub term: Option<String>,
    /// What `CI` says, if it is set.
    pub ci: Option<String>,
}

/// What the program was started in.
pub struct TerminalView {
    pub no_color: Option<Seq<char>>,
    pub stdin_tty: bool,
    pub stdout_tty: bool,
    pub term: Option<Seq<char>>,
    pub ci: Option<Seq<char>>,
}

impl View for Terminal {
    type V = TerminalView;

    open spec fn view(&self) -> TerminalView {
        TerminalView {
            no_color: self.no_color.deep_view(),
            stdin_tty: self.stdin_tty,
            stdout_tty: self.stdout_tty,
            term: self.term.deep_view(),
            ci: self.ci.deep_view(),
        }
    }
}

/// Whether there is a terminal that can show a whole screen in color, and nobody
/// asked for less.
pub open spec fn is_capable(t: TerminalView) -> bool {
    t.stdin_tty && t.stdout_tty && t.term != Some("dumb"@) && !(t.ci is Some && t.ci->0.len() > 0
        && t.ci->0 != "0"@ && lower(t.ci->0) != "false"@) && !(t.no_color is Some
        && t.no_color->0.len() > 0)
}

/// How the program shows itself: an argument that calls for lines decides first,
/// and the terminal after that. The name of the program is no argument.
pub open spec fn mode_of(args: Seq<Seq<char>>, t: TerminalView) -> UiMode {
    if exists|i: int| 1 <= i < args.len() && forces_lines(#[trigger] args[i]) {
        UiMode::Cli
    } else if is_capable(t) {
        UiMode::Tui
    } else {
        UiMode::Cli
    }
}

/// How the program shows itself.
pub fn detect_ui_mode(args: &Vec<String>, terminal: &Terminal) -> (r: UiMode)
    ensures
        r == mode_of(args.deep_view(), terminal@),
{
    let ghost a = args.deep_view();
    let n: usize = args.len();
    let mut i: usize = 1;
    while i < n
        invariant
            1 <= i,
            n == args@.len(),
            a == args.deep_view(),
            forall|j: int| 1 <= j < i && j < n ==> !forces_lines(#[trigger] a[j]),
        decreases n - i,
    {
        assert(a[i as int] == args@[i as int]@);
        if is_forcing(args[i].as_str()) {
            return UiMode::Cli;
        }
        i = i + 1;
    }
    let dumb = match &terminal.term {
        Some(t) => t.as_str().eq("dumb"),
        None => false,
    };
    let ci = match &terminal.ci {
        Some(v) => !v.as_str().is_empty() && !v.as_str().eq("0") && !lowered(v.as_str()).as_str().eq(
            "false",
        ),
        None => false,
    };
    let no_color = match &terminal.no_color {
        Some(v) => !v.as_str().is_empty(),
        None => false,
    };
    if terminal.stdin_tty && terminal.stdout_tty && !dumb && !ci && !no_color {
        UiMode::Tui
    } else {
        UiMode::Cli
    }
}

/// Whatever the terminal can do, what prints and ends, and the server, show
/// themselves in lines.
pub proof fn lines_can_be_forced(args: Seq<Seq<char>>, i: int, t: TerminalView)
    requires
        1 <= i < args.len(),
        forces_lines(args[i]),
    ensures
        mode_of(args, t) == UiMode::Cli,
{
}

/// What the program is called does not matter.
pub proof fn names_do_not_matter(args: Seq<Seq<char>>, name: Seq<char>, t: TerminalView)
    requires
        args.len() > 0,
    ensures
        mode_of(args.update(0, name), t) == mode_of(args, t),
{
    let b = args.update(0, name);
    if exists|i: int| 1 <= i < args.len() && forces_lines(#[trigger] args[i]) {
        let i = choose|i: int| 1 <= i < args.len() && forces_lines(#[trigger] args[i]);
        assert(b[i] == args[i]);
    }
    if exists|i: int| 1 <= i < b.len() && forces_lines(#[trigger] b[i]) {
        let i = choose|i: int| 1 <= i < b.len() && forces_lines(#[trigger] b[i]);
        assert(b[i] == args[i]);
    }
}

// ---------------------------------------------------------------------------
// What is asked for
// ---------------------------------------------------------------------------

/// What the arguments say.
pub struct Flags {
    /// Whether the version is asked for.
    pub version: bool,
    /// Whether the configuration is to be tested.
    pub config_test: bool,
    /// Whether the server is to be started, and if so whether quietly.
    pub serve: Option<bool>,
    /// What is said of colors before the command.
    pub color: Option<String>,
    /// What is said of colors after the command.
    pub serve_color: Option<String>,
}

/// What the program is asked to do.
#[derive(Debug, Clone, Copy, PartialEq, Eq, Structural)]
pub enum Invocation {
    /// Printing the version.
    Version,
    /// Testing the configuration.
    ConfigTest,
    /// Starting the server, quietly or not.
    Serve(bool),
    /// Nothing in particular.
    Banner,
}

/// What the program is asked to do: the first of several things.
pub open spec fn asked(version: bool, config_test: bool, serve: Option<bool>) -> Invocation {
    if version {
        Invocation::Version
    } else if config_test {
        Invocation::ConfigTest
    } else {
        match serve {
            Some(quiet) => Invocation::Serve(quiet),
            None => Invocation::Banner,
        }
    }
}

impl Flags {
    /// What the program is asked to do.
    pub fn invocation(&self) -> (r: Invocation)
        ensures
            r == asked(self.version, self.config_test, self.serve),
    {
        if self.version {
            Invocation::Version
        } else if self.config_test {
            Invocation::ConfigTest
        } else {
            match self.serve {
                Some(quiet) => Invocation::Serve(quiet),
                None => Invocation::Banner,
            }
        }
    }

    /// Whether colors are forced on or off: after the command counts more than
    /// before it, and whatever is neither `yes` nor `no` leaves it to the
    /// terminal.
    pub fn forced_color(&self) -> (r: Option<bool>)
        ensures
            r == match (self.serve_color.deep_view(), self.color.deep_view()) {
                (Some(c), _) => color_word(c),
                (None, Some(c)) => color_word(c),
                (None, None) => None,
            },
    {
        match &self.serve_color {
            Some(c) => parse_color_flag(c.as_str()),
            None => match &self.color {
                Some(c) => parse_color_flag(c.as_str()),
                None => None,
            },
        }
    }
}

/// What a word says of colors.
pub open spec fn color_word(word: Seq<char>) -> Option<bool> {
    if word == "yes"@ {
        Some(true)
    } else if word == "no"@ {
        Some(false)
    } else {
        None
    }
}

/// What a word says of colors.
pub fn parse_color_flag(word: &str) -> (r: Option<bool>)
    ensures
        r == color_word(word@),
{
    if word.eq("yes") {
        Some(true)
    } else if word.eq("no") {
        Some(false)
    } else {
        None
    }
}

/// The arguments that ask for something where there is no grammar: the first
/// match counts, wherever it stands.
pub open spec fn asked_by(args: Seq<Seq<char>>) -> Invocation {
    asked(
        args.contains("--version"@) || args.contains("-V"@),
        args.contains("--config-test"@) || args.contains("-t"@),
        if args.contains("serve"@) {
            Some(false)
        } else {
            None
        },
    )
}

fn has_arg(args: &Vec<String>, name: &str) -> (r: bool)
    ensures
        r == args.deep_view().contains(name@),
{
    let ghost a = args.deep_view();
    let n: usize = args.len();
    let mut i: usize = 0;
    while i < n
        invariant
            i <= n,
            n == args@.len(),
            a == args.deep_view(),
            forall|j: int| 0 <= j < i ==> a[j] != name@,
        decreases n - i,
    {
        assert(a[i as int] == args@[i as int]@);
        if args[i].as_str().eq(name) {
            assert(a.contains(name@));
            return true;
        }
        i = i + 1;
    }
    false
}

/// What arguments ask for where there is no grammar.
pub fn scan_args(args: &Vec<String>) -> (r: Invocation)
    ensures
        r == asked_by(args.deep_view()),
{
    let version = has_arg(args, "--version") || has_arg(args, "-V");
    let config_test = has_arg(args, "--config-test") || has_arg(args, "-t");
    let serve = if has_arg(args, "serve") {
        Some(false)
    } else {
        None
    };
    let flags = Flags { version, config_test, serve, color: None, serve_color: None };
    flags.invocation()
}

// ---------------------------------------------------------------------------
// What is printed
// ---------------------------------------------------------------------------

/// The version and when it was built.
pub open spec fn version_text(site: Seq<char>) -> Seq<char> {
    "cashttpd "@ + VERSION@ + " (commit "@ + COMMIT_ID@ + ", built "@ + date_of_epoch(BUILD_EPOCH@) + ")"@ + (
    if site.len() == 0 {
        ""@
    } else {
        " — "@ + site
    })
}

/// The version and when it was built, with the site of the project if it has
/// one.
pub fn version_line() -> (r: String)
    ensures
        r@ == version_text(OFFICIAL_SITE@),
{
    let mut out = "cashttpd ".to_owned();
    out.append(VERSION);
    out.append(" (commit ");
    out.append(COMMIT_ID);
    out.append(", built ");
    out.append(build_date().as_str());
    out.append(")");
    let site = if OFFICIAL_SITE.is_empty() {
        "".to_owned()
    } else {
        let mut s = " — ".to_owned();
        s.append(OFFICIAL_SITE);
        s
    };
    out.append(site.as_str());
    out
}

/// What is printed where nothing in particular is asked for.
pub fn banner(mode: UiMode) -> (r: String)
    ensures
        r@ == "cashttpd "@ + VERSION@ + match mode {
            UiMode::Tui => " (tui mode)"@,
            UiMode::Cli => " (cli mode)"@,
        },
{
    let mut out = "cashttpd ".to_owned();
    out.append(VERSION);
    out.append(
        match mode {
            UiMode::Tui => " (tui mode)",
            UiMode::Cli => " (cli mode)",
        },
    );
    out
}

/// What the test of a configuration prints, and how the program ends.
pub fn config_report(result: &Result<(), String>) -> (r: (String, i32))
    ensures
        match result {
            Ok(_) => r.0@ == "cashttpd: configuration syntax is ok"@ && r.1 == 0,
            Err(e) => r.0@ == "cashttpd: configuration error: "@ + e@ && r.1 == 1,
        },
{
    match result {
        Ok(_) => ("cashttpd: configuration syntax is ok".to_owned(), 0),
        Err(e) => {
            let mut s = "cashttpd: configuration error: ".to_owned();
            s.append(e.as_str());
            (s, 1)
        },
    }
}

/// What a server that could not be started prints.
pub fn fatal_line(err: &str) -> (r: String)
    ensures
        r@ == "cashttpd: fatal: "@ + err@,
{
    let mut s = "cashttpd: fatal: ".to_owned();
    s.append(err);
    s
}

} // verus!
