//! Logs, directories, accounts and terminals.

use vstd::prelude::*;

use crate::digits::decimal;
use crate::laws::outputs::lemma_last_part;
use crate::laws::wording::{is_tight, lemma_decimal_digits, lemma_tight, numbers_read_back};
use crate::paths::under_dir;
use crate::platforms::{
    config_path, data_path, has_account, log_path, own_dir, privilege_steps, Family, PrivilegeStep,
};
use crate::servers::logs::access_text;
use crate::supports::calendar::{date, day_number, day_of_date, http_date, is_date, stamp};
use crate::supports::color::{colored, light};
use crate::supports::rotation::{
    age, age_limit, crossed, due, given_up, is_rotated, keep_of, on_part, rotated, rotation_of,
    surplus, KeepPolicy, RotatePolicy, Rotation, TimeUnit,
};
use crate::supports::signal::{after_signal, delivery, ShutdownState};
use crate::text::{is_space, lower, same_letters, stands_at, strip_suffix, trim};
use crate::uis::{
    asked, asked_by, color_word, forces_lines, mode_of, Invocation, TerminalView, UiMode,
};

verus! {

// ---------------------------------------------------------------------------
// Logs
// ---------------------------------------------------------------------------

proof fn lemma_suffixed(a: Seq<char>, p: Seq<char>)
    ensures
        strip_suffix(a + p, p) == Some(a),
{
    let s = a + p;
    assert(s.subrange(s.len() - p.len(), s.len() - p.len() + p.len()) =~= p);
    assert(s.take(s.len() - p.len()) =~= a);
}

proof fn lemma_not_suffixed(s: Seq<char>, p: Seq<char>)
    requires
        p.len() > 0,
        s.len() == 0 || s.last() != p.last(),
    ensures
        strip_suffix(s, p) is None,
{
    if stands_at(s, p, s.len() - p.len()) {
        let w = s.subrange(s.len() - p.len(), s.len() - p.len() + p.len());
        assert(w[p.len() - 1] == s[s.len() - 1]);
    }
}

proof fn lemma_number_and_unit(n: int, unit: Seq<char>)
    requires
        0 <= n,
        unit.len() > 0,
        lower(unit) == unit,
        !is_space(unit.last()),
    ensures
        lower(trim(decimal(n) + unit)) == decimal(n) + unit,
        (decimal(n) + unit).last() == unit.last(),
{
    let d = decimal(n);
    let s = d + unit;
    lemma_decimal_digits(n);
    assert('0' <= d[0] <= '9');
    assert(s[0] == d[0]);
    assert(s.last() == unit.last());
    lemma_tight(s);
    assert forall|i: int| 0 <= i < s.len() implies #[trigger] lower(s)[i] == s[i] by {
        if i < d.len() {
            assert('0' <= d[i] <= '9');
        } else {
            assert(lower(unit)[i - d.len()] == unit[i - d.len()]);
        }
    }
    assert(lower(s) =~= s);
}

/// How long old logs are kept: a number of days, weeks or months; a number of files; for
/// ever; or not at all.
pub proof fn logs_are_kept(n: u32)
    ensures
        keep_of(decimal(n as int) + seq!['d']) == KeepPolicy::Days(n),
        keep_of(decimal(n as int) + seq!['w']) == KeepPolicy::Weeks(n),
        keep_of(decimal(n as int) + seq!['m']) == KeepPolicy::Months(n),
        keep_of(decimal(n as int)) == KeepPolicy::Count(n),
        keep_of("forever"@) == KeepPolicy::Forever,
        keep_of("none"@) == KeepPolicy::Nothing,
        keep_of(Seq::empty()) == KeepPolicy::Nothing,
{
    reveal_strlit("d");
    reveal_strlit("w");
    reveal_strlit("m");
    reveal_strlit("none");
    reveal_strlit("forever");
    assert("d"@ =~= seq!['d']);
    assert("w"@ =~= seq!['w']);
    assert("m"@ =~= seq!['m']);
    let x = decimal(n as int);
    lemma_decimal_digits(n as int);
    crate::digits::written_reads_back(n as int, 10);
    assert(lower("d"@) =~= "d"@);
    assert(lower("w"@) =~= "w"@);
    assert(lower("m"@) =~= "m"@);
    lemma_number_and_unit(n as int, "d"@);
    lemma_number_and_unit(n as int, "w"@);
    lemma_number_and_unit(n as int, "m"@);
    assert('0' <= x[0] <= '9');
    assert((x + seq!['d'])[0] == x[0] && (x + seq!['w'])[0] == x[0] && (x + seq!['m'])[0] == x[0]);
    assert("none"@[0] == 'n' && "forever"@[0] == 'f');
    lemma_suffixed(x, "d"@);
    lemma_suffixed(x, "w"@);
    lemma_suffixed(x, "m"@);
    lemma_not_suffixed(x + "w"@, "d"@);
    lemma_not_suffixed(x + "m"@, "d"@);
    lemma_not_suffixed(x + "m"@, "w"@);
    assert('0' <= x[x.len() - 1] <= '9');
    lemma_not_suffixed(x, "d"@);
    lemma_not_suffixed(x, "w"@);
    lemma_not_suffixed(x, "m"@);
    lemma_tight(x);
    assert(lower(x) =~= x) by {
        assert forall|i: int| 0 <= i < x.len() implies #[trigger] lower(x)[i] == x[i] by {
            assert('0' <= x[i] <= '9');
        }
    }
    assert(lower("none"@) =~= "none"@);
    assert(lower("forever"@) =~= "forever"@);
    assert("none"@.len() == 4 && "forever"@.len() == 7);
    lemma_tight("none"@);
    lemma_tight("forever"@);
    let e = Seq::<char>::empty();
    lemma_tight(e);
    assert(lower(e) =~= e);
}

/// When logs are changed: by the day, the week, the month or the year, in letters of any
/// case; at a size; never; or at the earlier of two.
pub proof fn logs_are_changed(p: Rotation, word: Seq<char>, n: u32)
    requires
        is_tight(word),
    ensures
        same_letters(word, "daily"@) ==> on_part(p, word) == (Rotation {
            time: Some(TimeUnit::Daily),
            ..p
        }),
        same_letters(word, "weekly"@) ==> on_part(p, word) == (Rotation {
            time: Some(TimeUnit::Weekly),
            ..p
        }),
        same_letters(word, "monthly"@) ==> on_part(p, word) == (Rotation {
            time: Some(TimeUnit::Monthly),
            ..p
        }),
        same_letters(word, "yearly"@) ==> on_part(p, word) == (Rotation {
            time: Some(TimeUnit::Yearly),
            ..p
        }),
        same_letters(word, "never"@) ==> on_part(p, word) == p,
        on_part(p, decimal(n as int) + seq!['m', 'b']) == (Rotation {
            size_bytes: Some(n * 1048576),
            ..p
        }),
        on_part(p, decimal(n as int) + seq!['g', 'b']) == (Rotation {
            size_bytes: Some(n * 1073741824),
            ..p
        }),
        rotation_of(Seq::empty()) == (Rotation { time: None, size_bytes: None }),
{
    lemma_rotation_words();
    lemma_tight(word);
    reveal_strlit("mb");
    reveal_strlit("gb");
    assert("mb"@ =~= seq!['m', 'b']);
    assert("gb"@ =~= seq!['g', 'b']);
    assert(lower("mb"@) =~= "mb"@);
    assert(lower("gb"@) =~= "gb"@);
    lemma_number_and_unit(n as int, "mb"@);
    lemma_number_and_unit(n as int, "gb"@);
    let x = decimal(n as int);
    lemma_decimal_digits(n as int);
    assert('0' <= x[0] <= '9');
    let a = x + "mb"@;
    let b = x + "gb"@;
    assert(a[0] == x[0] && b[0] == x[0]);
    lemma_suffixed(x, "mb"@);
    lemma_suffixed(x, "gb"@);
    numbers_read_back(n as int);
    assert(strip_suffix(b, "mb"@) is None) by {
        if stands_at(b, "mb"@, b.len() - 2) {
            assert(b.subrange(b.len() - 2, b.len() as int)[0] == 'g');
        }
    }
    assert(a.last() == 'b' && b.last() == 'b');
}

proof fn lemma_rotation_words()
    ensures
        lower("daily"@) == "daily"@ && lower("weekly"@) == "weekly"@ && lower("monthly"@)
            == "monthly"@ && lower("yearly"@) == "yearly"@ && lower("never"@) == "never"@,
        "daily"@ != "never"@ && "weekly"@ != "never"@ && "monthly"@ != "never"@ && "yearly"@
            != "never"@,
        "weekly"@ != "daily"@ && "monthly"@ != "daily"@ && "yearly"@ != "daily"@,
        "monthly"@ != "weekly"@ && "yearly"@ != "weekly"@ && "yearly"@ != "monthly"@,
        "daily"@[0] == 'd' && "weekly"@[0] == 'w' && "monthly"@[0] == 'm' && "yearly"@[0] == 'y'
            && "never"@[0] == 'n',
{
    reveal_strlit("daily");
    reveal_strlit("weekly");
    reveal_strlit("monthly");
    reveal_strlit("yearly");
    reveal_strlit("never");
    assert(lower("daily"@) =~= "daily"@);
    assert(lower("weekly"@) =~= "weekly"@);
    assert(lower("monthly"@) =~= "monthly"@);
    assert(lower("yearly"@) =~= "yearly"@);
    assert(lower("never"@) =~= "never"@);
    assert("daily"@[0] == 'd' && "weekly"@[0] == 'w' && "monthly"@[0] == 'm' && "yearly"@[0] == 'y'
        && "never"@[0] == 'n');
}

/// A period ends with its day, its week, its month or its year.
pub proof fn periods_end(start: int, now: int)
    requires
        0 <= start <= now,
    ensures
        start / 86400 == now / 86400 ==> !crossed(TimeUnit::Daily, start, now) && !crossed(
            TimeUnit::Weekly,
            start,
            now,
        ) && !crossed(TimeUnit::Monthly, start, now) && !crossed(TimeUnit::Yearly, start, now),
        date(start / 86400) != date(now / 86400) ==> crossed(TimeUnit::Daily, start, now),
        start / 604800 != now / 604800 ==> crossed(TimeUnit::Weekly, start, now),
        start / 604800 == now / 604800 ==> !crossed(TimeUnit::Weekly, start, now),
        date(start / 86400).1 != date(now / 86400).1 ==> crossed(TimeUnit::Monthly, start, now),
        date(start / 86400).0 == date(now / 86400).0 && date(start / 86400).1 == date(
            now / 86400,
        ).1 ==> !crossed(TimeUnit::Monthly, start, now),
        date(start / 86400).0 != date(now / 86400).0 ==> crossed(TimeUnit::Yearly, start, now)
            && crossed(TimeUnit::Monthly, start, now),
        date(start / 86400).0 == date(now / 86400).0 ==> !crossed(TimeUnit::Yearly, start, now),
{
    assert((start / 86400) / 7 == start / 604800);
    assert((now / 86400) / 7 == now / 604800);
}

/// A log is changed when its period is over or when it has reached its size, whichever
/// comes first; and one without either is never changed.
pub proof fn logs_are_due(p: RotatePolicy, len: int, start: int, now: int)
    ensures
        p.time is None && p.size_bytes is None ==> !due(p, len, start, now),
        p.size_bytes is Some && len >= p.size_bytes->0 ==> due(p, len, start, now),
        p.time is Some && crossed(p.time->0, start, now) ==> due(p, len, start, now),
        p.time is None && p.size_bytes is Some && len < p.size_bytes->0 ==> !due(
            p,
            len,
            start,
            now,
        ),
        p.size_bytes is None && p.time is Some && !crossed(p.time->0, start, now) ==> !due(
            p,
            len,
            start,
            now,
        ),
{
}

/// Ages are counted in days, weeks of seven days and months of thirty.
pub proof fn ages_are_counted(n: u32, total: int, seconds: int, now: int)
    requires
        0 <= total,
        0 <= seconds <= now,
    ensures
        age_limit(KeepPolicy::Days(n)) == Some(n * 86400),
        age_limit(KeepPolicy::Weeks(n)) == Some(n * 604800),
        age_limit(KeepPolicy::Months(n)) == Some(n * 2592000),
        age_limit(KeepPolicy::Forever) is None && age_limit(KeepPolicy::Nothing) is None,
        surplus(KeepPolicy::Forever, total) == 0,
        surplus(KeepPolicy::Nothing, total) == total,
        total <= n ==> surplus(KeepPolicy::Count(n), total) == 0,
        total > n ==> surplus(KeepPolicy::Count(n), total) == total - n,
        age(seconds * 1_000_000_000, now) == now - seconds,
{
    assert((seconds * 1_000_000_000) / 1_000_000_000 == seconds);
}

/// A line of the log of requests, parted at its quotes: who asked and when; what was
/// asked; the status and the length of the answer; where the client came from; and what
/// it is.
pub proof fn requests_are_logged(
    address: Seq<char>,
    port: Seq<char>,
    method: Seq<char>,
    path: Seq<char>,
    version: Seq<char>,
    status: u16,
    bytes: u64,
    headers: Map<Seq<char>, Seq<char>>,
    now: u64,
)
    requires
        !port.contains(':'),
        !headers.contains_key("referer"@),
        !headers.contains_key("user-agent"@),
    ensures
        access_text(address + seq![':'] + port, method, path, version, status, bytes, headers, now)
            == address + " - - ["@ + http_date(now as int) + seq![']', ' ', '"'] + (method + seq![
            ' ',
        ] + path + seq![' '] + version) + seq!['"', ' '] + decimal(status as int) + seq![' ']
            + decimal(bytes as int) + " \"-\" \"-\"\n"@,
{
    lemma_last_part(address, ':', port);
    reveal_strlit("] \"");
    reveal_strlit(" ");
    reveal_strlit("\" ");
    reveal_strlit(" \"");
    reveal_strlit("-");
    reveal_strlit("\" \"");
    reveal_strlit("\"\n");
    reveal_strlit(" \"-\" \"-\"\n");
    assert("] \""@ =~= seq![']', ' ', '"']);
    assert(" "@ =~= seq![' ']);
    assert("\" "@ =~= seq!['"', ' ']);
    let front = address + " - - ["@ + http_date(now as int) + seq![']', ' ', '"'];
    let line = method + seq![' '] + path + seq![' '] + version;
    assert(front + method + seq![' '] + path + seq![' '] + version =~= front + line);
    let all = front + line + seq!['"', ' '] + decimal(status as int) + seq![' '] + decimal(
        bytes as int,
    );
    assert(" \""@ + "-"@ + "\" \""@ + "-"@ + "\"\n"@ =~= " \"-\" \"-\"\n"@);
    assert(all + " \""@ + "-"@ + "\" \""@ + "-"@ + "\"\n"@ =~= all + (" \""@ + "-"@ + "\" \""@
        + "-"@ + "\"\n"@));
}

/// The log names where a client came from and what it is, where it says so.
pub proof fn clients_are_logged(headers: Map<Seq<char>, Seq<char>>, name: Seq<char>)
    ensures
        headers.contains_key(name) ==> crate::servers::logs::field_or_dash(headers, name)
            == headers[name],
        !headers.contains_key(name) ==> crate::servers::logs::field_or_dash(headers, name)
            == seq!['-'],
{
    reveal_strlit("-");
    assert("-"@ =~= seq!['-']);
}

// ---------------------------------------------------------------------------
// Directories and accounts
// ---------------------------------------------------------------------------

/// Where things are kept on Unix: below what the environment names, or else below the
/// home of the user.
pub proof fn unix_keeps_things_at_home(home: Seq<char>, set: Seq<char>)
    requires
        home.len() > 0 && home.last() != '/',
        set.len() > 0 && set.last() != '/',
    ensures
        config_path(Family::Unix, Some(home), None) == home + "/.config/casapps/cashttpd"@,
        config_path(Family::Unix, Some(home), Some(set)) == set + "/casapps/cashttpd"@,
        data_path(Family::Unix, Some(home), None) == home + "/.local/share/casapps/cashttpd"@,
        data_path(Family::Unix, Some(home), Some(set)) == set + "/casapps/cashttpd"@,
        log_path(Family::Unix, Some(home), None) == home
            + "/.local/state/casapps/cashttpd/logs"@,
        log_path(Family::Unix, Some(home), Some(set)) == set + "/casapps/cashttpd/logs"@,
{
    reveal_strlit("/");
    reveal_strlit(".config");
    reveal_strlit("casapps");
    reveal_strlit("cashttpd");
    reveal_strlit(".local/share");
    reveal_strlit(".local/state");
    reveal_strlit("logs");
    reveal_strlit("/.config/casapps/cashttpd");
    reveal_strlit("/casapps/cashttpd");
    reveal_strlit("/.local/share/casapps/cashttpd");
    reveal_strlit("/.local/state/casapps/cashttpd/logs");
    reveal_strlit("/casapps/cashttpd/logs");
    lemma_own(set);
    assert(set + "/"@ + "casapps"@ + "/"@ + "cashttpd"@ =~= set + "/casapps/cashttpd"@);
    let c = under_dir(home, ".config"@);
    assert(c =~= home + "/"@ + ".config"@);
    assert(c.last() == 'g');
    lemma_own(c);
    assert(own_dir(c) =~= home + "/.config/casapps/cashttpd"@);
    let s = under_dir(home, ".local/share"@);
    assert(s =~= home + "/"@ + ".local/share"@);
    assert(s.last() == 'e');
    lemma_own(s);
    assert(own_dir(s) =~= home + "/.local/share/casapps/cashttpd"@);
    let t = under_dir(home, ".local/state"@);
    assert(t =~= home + "/"@ + ".local/state"@);
    assert(t.last() == 'e');
    lemma_own(t);
    assert(own_dir(t) + "/"@ + "logs"@ =~= home + "/.local/state/casapps/cashttpd/logs"@);
    assert(own_dir(set) + "/"@ + "logs"@ =~= set + "/casapps/cashttpd/logs"@);
}

proof fn lemma_own(base: Seq<char>)
    requires
        base.len() > 0 && base.last() != '/',
    ensures
        own_dir(base) == base + "/"@ + "casapps"@ + "/"@ + "cashttpd"@,
        own_dir(base).last() == 'd',
        under_dir(own_dir(base), "logs"@) == own_dir(base) + "/"@ + "logs"@,
{
    reveal_strlit("/");
    reveal_strlit("casapps");
    reveal_strlit("cashttpd");
    reveal_strlit("logs");
    let a = under_dir(base, "casapps"@);
    assert(a == base + "/"@ + "casapps"@);
    assert(a.last() == 's');
}

/// Only root changes who the server is, and it always becomes somebody else: the group
/// first, then the user; and an account that is missing is made before.
pub proof fn root_becomes_somebody_else(group: Seq<char>, passwd: Seq<char>)
    ensures
        privilege_steps(false, group, passwd) == Seq::<PrivilegeStep>::empty(),
        has_account(group) && has_account(passwd) ==> privilege_steps(true, group, passwd).len()
            == 2,
        !has_account(group) ==> privilege_steps(true, group, passwd)[0] == PrivilegeStep::AddGroup,
        !has_account(passwd) ==> privilege_steps(true, group, passwd).contains(
            PrivilegeStep::AddUser,
        ),
        privilege_steps(true, group, passwd).last() is TakeUser,
        privilege_steps(true, group, passwd).drop_last().last() is TakeGroup,
{
    let s = privilege_steps(true, group, passwd);
    if !has_account(passwd) {
        assert(s[s.len() - 3] == PrivilegeStep::AddUser);
    }
}

// ---------------------------------------------------------------------------
// Terminals
// ---------------------------------------------------------------------------

/// What is asked of the program.
pub proof fn invocations_are_told_apart(version: bool, config_test: bool, quiet: bool)
    ensures
        asked(true, config_test, Some(quiet)) == Invocation::Version,
        asked(false, true, Some(quiet)) == Invocation::ConfigTest,
        asked(false, false, Some(quiet)) == Invocation::Serve(quiet),
        asked(false, false, None) == Invocation::Banner,
        color_word("yes"@) == Some(true),
        color_word("no"@) == Some(false),
        color_word("auto"@) is None,
{
    reveal_strlit("yes");
    reveal_strlit("no");
    reveal_strlit("auto");
    assert("yes"@.len() == 3 && "no"@.len() == 2 && "auto"@.len() == 4);
}

/// The full screen is taken only by a program that has it to itself: one that was started
/// without a command, at a terminal that can show it, by a user who does not mind.
pub proof fn screens_are_taken_where_they_can_be(args: Seq<Seq<char>>, t: TerminalView)
    ensures
        !t.stdin_tty || !t.stdout_tty ==> mode_of(args, t) == UiMode::Cli,
        t.term == Some("dumb"@) ==> mode_of(args, t) == UiMode::Cli,
        t.no_color is Some && t.no_color->0.len() > 0 ==> mode_of(args, t) == UiMode::Cli,
        t.ci == Some("true"@) ==> mode_of(args, t) == UiMode::Cli,
        args.len() == 1 && t.stdin_tty && t.stdout_tty && t.term != Some("dumb"@) && t.ci is None
            && t.no_color is None ==> mode_of(args, t) == UiMode::Tui,
        args.len() == 2 && args[1] == "serve"@ ==> mode_of(args, t) == UiMode::Cli,
{
    reveal_strlit("true");
    reveal_strlit("false");
    reveal_strlit("0");
    assert(lower("true"@) =~= "true"@);
    assert("true"@.len() == 4 && "false"@.len() == 5 && "0"@.len() == 1);
    if args.len() == 2 && args[1] == "serve"@ {
        assert(forces_lines(args[1]));
    }
}

/// Colors are shown where they are asked for; otherwise at a terminal that can, unless
/// the user does not want them.
pub proof fn colors_are_shown(
    no_color: Option<Seq<char>>,
    is_terminal: bool,
    term: Option<Seq<char>>,
    force: bool,
)
    ensures
        colored(Some(force), no_color, is_terminal, term) == force,
        !colored(None, no_color, false, term),
        no_color is Some && no_color->0.len() > 0 ==> !colored(None, no_color, is_terminal, term),
        term == Some("dumb"@) ==> !colored(None, no_color, is_terminal, term),
        no_color is None && is_terminal && term != Some("dumb"@) ==> colored(
            None,
            no_color,
            is_terminal,
            term,
        ),
{
}

/// The last number of the colors of a terminal tells whether it is light.
pub proof fn backgrounds_are_light_or_dark(front: Seq<char>, n: u8)
    ensures
        light(Some(front + seq![';'] + decimal(n as int))) <==> n >= 8,
        !light(None),
{
    let d = decimal(n as int);
    lemma_decimal_digits(n as int);
    assert(!d.contains(';')) by {
        if d.contains(';') {
            let i = choose|i: int| 0 <= i < d.len() && d[i] == ';';
            assert('0' <= d[i] <= '9');
        }
    }
    lemma_last_part(front, ';', d);
    crate::digits::written_reads_back(n as int, 10);
}

/// The first signal asks the server to end, and its child with it; the second ends it at
/// once.
pub proof fn signals_end_the_server(s: ShutdownState)
    ensures
        after_signal(s).shutdown_requested,
        after_signal(s).child_pid == s.child_pid,
        delivery(s).exit_now == s.shutdown_requested,
        delivery(after_signal(s)).exit_now,
        s.child_pid > 0 ==> delivery(s).terminate == Some(s.child_pid),
        s.child_pid <= 0 ==> delivery(s).terminate is None,
{
}


// ---------------------------------------------------------------------------
// Old logs
// ---------------------------------------------------------------------------

/// An old log is named after the day of its change, and numbered where that name is taken.
pub proof fn old_logs_are_named_after_their_day(
    active: Seq<char>,
    y: int,
    m: int,
    d: int,
    seconds: int,
    n: int,
)
    requires
        y >= 1970,
        is_date(y, m, d),
        0 <= seconds < 86400,
    ensures
        rotated(active, day_number(y, m, d) * 86400 + seconds, 0) == active + seq!['-'] + stamp(
            y,
            m,
            d,
        ),
        n > 0 ==> rotated(active, day_number(y, m, d) * 86400 + seconds, n) == active + seq!['-']
            + stamp(y, m, d) + seq!['.'] + decimal(n),
        is_rotated(active, rotated(active, day_number(y, m, d) * 86400 + seconds, n)),
        !is_rotated(active, active),
{
    day_of_date(y, m, d);
    let t = day_number(y, m, d) * 86400 + seconds;
    assert(t / 86400 == day_number(y, m, d));
    reveal_strlit("-");
    reveal_strlit(".");
    assert("-"@ =~= seq!['-']);
    assert("."@ =~= seq!['.']);
    let p = active + "-"@;
    let tail = if n == 0 {
        stamp(y, m, d)
    } else {
        stamp(y, m, d) + "."@ + decimal(n)
    };
    assert(rotated(active, t, n) =~= p + tail);
    crate::laws::wording::lemma_prefixed(p, tail);
}

/// Logs that are kept by their age are given up when they are older than that, and no
/// others; and for ever means that none is.
pub proof fn old_logs_are_given_up(
    sorted: Seq<(Seq<char>, int)>,
    f: (Seq<char>, int),
    n: u32,
    now: int,
)
    ensures
        age(f.1, now) > n * 86400 ==> given_up(sorted.push(f), KeepPolicy::Days(n), now)
            == given_up(sorted, KeepPolicy::Days(n), now).push(f.0),
        age(f.1, now) <= n * 86400 ==> given_up(sorted.push(f), KeepPolicy::Days(n), now)
            == given_up(sorted, KeepPolicy::Days(n), now),
        given_up(sorted, KeepPolicy::Forever, now) == Seq::<Seq<char>>::empty(),
        given_up(sorted, KeepPolicy::Nothing, now).len() == sorted.len(),
        sorted.len() <= n ==> given_up(sorted, KeepPolicy::Count(n), now).len() == 0,
        sorted.len() > n ==> given_up(sorted, KeepPolicy::Count(n), now).len() == sorted.len() - n,
{
    reveal(Seq::filter);
    let limit = (n * 86400) as int;
    let old = |x: (Seq<char>, int)| age(x.1, now) > limit;
    let name = |x: (Seq<char>, int)| x.0;
    let p = sorted.push(f);
    assert(p.drop_last() =~= sorted);
    assert(p.last() == f);
    let kept = sorted.filter(old);
    if age(f.1, now) > limit {
        assert(p.filter(old) == kept.push(f));
        assert(kept.push(f).map_values(name) =~= kept.map_values(name).push(f.0));
    } else {
        assert(p.filter(old) == kept);
    }
    assert(given_up(sorted, KeepPolicy::Forever, now) =~= Seq::empty());
}

/// What is asked by words on the command line.
pub proof fn words_ask_for_things(args: Seq<Seq<char>>)
    ensures
        args.contains("--version"@) ==> asked_by(args) == Invocation::Version,
        args.contains("-V"@) ==> asked_by(args) == Invocation::Version,
        !args.contains("--version"@) && !args.contains("-V"@) && (args.contains("--config-test"@)
            || args.contains("-t"@)) ==> asked_by(args) == Invocation::ConfigTest,
        args == seq!["serve"@] ==> asked_by(args) == Invocation::Serve(false),
        args.len() == 0 ==> asked_by(args) == Invocation::Banner,
{
    reveal_strlit("--version");
    reveal_strlit("-V");
    reveal_strlit("--config-test");
    reveal_strlit("-t");
    reveal_strlit("serve");
    if args == seq!["serve"@] {
        assert(args[0] == "serve"@);
        assert("serve"@[0] == 's' && "--version"@[0] == '-' && "-V"@[0] == '-'
            && "--config-test"@[0] == '-' && "-t"@[0] == '-');
    }
}


/// A client that says where it came from and what it is has both in the log, in that
/// order, each in quotes.
pub proof fn clients_are_logged_in_quotes(
    address: Seq<char>,
    port: Seq<char>,
    method: Seq<char>,
    path: Seq<char>,
    version: Seq<char>,
    status: u16,
    bytes: u64,
    headers: Map<Seq<char>, Seq<char>>,
    now: u64,
)
    requires
        !port.contains(':'),
        headers.contains_key("referer"@),
        headers.contains_key("user-agent"@),
    ensures
        access_text(address + seq![':'] + port, method, path, version, status, bytes, headers, now)
            == address + " - - ["@ + http_date(now as int) + seq![']', ' ', '"'] + method + seq![' ']
            + path + seq![' '] + version + seq!['"', ' '] + decimal(status as int) + seq![' ']
            + decimal(bytes as int) + seq![' ', '"'] + headers["referer"@] + seq!['"', ' ', '"']
            + headers["user-agent"@] + seq!['"', '\n'],
{
    lemma_last_part(address, ':', port);
    reveal_strlit("] \"");
    reveal_strlit(" ");
    reveal_strlit("\" ");
    reveal_strlit(" \"");
    reveal_strlit("\" \"");
    reveal_strlit("\"\n");
    assert("] \""@ =~= seq![']', ' ', '"']);
    assert(" "@ =~= seq![' ']);
    assert("\" "@ =~= seq!['"', ' ']);
    assert(" \""@ =~= seq![' ', '"']);
    assert("\" \""@ =~= seq!['"', ' ', '"']);
    assert("\"\n"@ =~= seq!['"', '\n']);
}

} // verus!
