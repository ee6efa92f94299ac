//! What the lines of a directory's own rules mean.

use vstd::prelude::*;

use crate::digits::decimal;
use crate::laws::wording::{
    is_tight, is_word, lemma_around, lemma_decimal_digits, lemma_lacking, lemma_prefixed,
    lemma_not_prefixed, lemma_tight, lemma_trim_back, numbers_read_back,
    words_are_parted_by_space,
};
use crate::net::address;
use crate::servers::htaccess::{
    flags, no_rules, nonempty, on_directive, on_line, on_lines, on_options, parsed, sources,
    AccessRule, Order, Progress, RedirectView, RequireView, RewriteCondView, RewriteRuleView,
    RulesView,
};
use crate::text::{
    is_space, join, lemma_position_is, lines, lower, same_letters, split, starts_with, trim,
    trim_end, trim_start, without_return, words, Class,
};

verus! {

// ---------------------------------------------------------------------------
// Lines
// ---------------------------------------------------------------------------

/// Words in a line, with a space between each two.
pub open spec fn line_of(ws: Seq<Seq<char>>) -> Seq<char>
    decreases ws.len(),
{
    if ws.len() == 0 {
        Seq::empty()
    } else if ws.len() == 1 {
        ws[0]
    } else {
        ws[0] + seq![' '] + line_of(ws.skip(1))
    }
}

/// Whether all are words.
pub open spec fn are_words(ws: Seq<Seq<char>>) -> bool {
    forall|i: int| 0 <= i < ws.len() ==> is_word(#[trigger] ws[i])
}

/// A line of words has these words, nothing to trim, and no line break.
pub proof fn lines_hold_their_words(ws: Seq<Seq<char>>)
    requires
        ws.len() > 0,
        are_words(ws),
    ensures
        words(line_of(ws)) == ws,
        line_of(ws).len() > 0,
        line_of(ws)[0] == ws[0][0],
        is_tight(line_of(ws)),
        !line_of(ws).contains('\n'),
        !line_of(ws).contains('\r'),
    decreases ws.len(),
{
    let w = ws[0];
    assert(is_word(w));
    assert(!is_space(w[0]) && !is_space(w[w.len() - 1]));
    assert forall|i: int| 0 <= i < w.len() implies #[trigger] w[i] != '\n' && w[i] != '\r' by {
        assert(!is_space(w[i]));
    }
    if ws.len() == 1 {
        words_are_parted_by_space(w, ' ', Seq::empty());
        assert(ws =~= seq![w]);
    } else {
        let rest = ws.skip(1);
        assert forall|i: int| 0 <= i < rest.len() implies is_word(#[trigger] rest[i]) by {
            assert(rest[i] == ws[i + 1]);
        }
        lines_hold_their_words(rest);
        let l = line_of(rest);
        words_are_parted_by_space(w, ' ', l);
        assert(seq![w] + rest =~= ws);
        let s = w + seq![' '] + l;
        assert(s[0] == w[0]);
        assert(s.last() == l.last());
        assert forall|i: int| 0 <= i < s.len() implies #[trigger] s[i] != '\n' && s[i] != '\r' by {
            if i < w.len() {
                assert(s[i] == w[i]);
            } else if i > w.len() {
                assert(s[i] == l[i - w.len() - 1]);
                assert(l.contains(l[i - w.len() - 1]));
            }
        }
    }
}

/// Words that are put together with spaces stand in a line.
pub proof fn lemma_joined_is_line(ws: Seq<Seq<char>>)
    ensures
        join(ws, " "@) == line_of(ws),
    decreases ws.len(),
{
    reveal_strlit(" ");
    assert(" "@ =~= seq![' ']);
    if ws.len() > 1 {
        let d = ws.drop_last();
        lemma_joined_is_line(d);
        lemma_line_grows(d, ws.last());
        assert(d.push(ws.last()) =~= ws);
    }
}

proof fn lemma_line_grows(ws: Seq<Seq<char>>, w: Seq<char>)
    requires
        ws.len() > 0,
    ensures
        line_of(ws.push(w)) == line_of(ws) + seq![' '] + w,
    decreases ws.len(),
{
    reveal_with_fuel(line_of, 2);
    assert(ws.push(w).skip(1) =~= ws.skip(1).push(w));
    if ws.len() > 1 {
        lemma_line_grows(ws.skip(1), w);
        assert(line_of(ws.push(w)) =~= line_of(ws) + seq![' '] + w);
    } else {
        assert(ws.skip(1) =~= Seq::empty());
        assert(ws.push(w).skip(1) =~= seq![w]);
    }
}

/// The first of several lines.
pub proof fn lemma_first_line(a: Seq<char>, b: Seq<char>)
    requires
        a.len() > 0,
        !a.contains('\n'),
        !a.contains('\r'),
    ensures
        lines(a) == seq![a],
        lines(a + seq!['\n'] + b) == seq![a] + lines(b),
{
    lemma_lacking(a, '\n');
    let s = a + seq!['\n'] + b;
    assert forall|j: int| 0 <= j < a.len() implies s[j] != '\n' by {
        assert(s[j] == a[j]);
        assert(a.contains(a[j]));
    }
    lemma_position_is(s, '\n', a.len() as int);
    assert(s.take(a.len() as int) =~= a);
    assert(s.skip(a.len() as int + 1) =~= b);
    assert(a.contains(a[a.len() - 1]));
    assert(without_return(a) == a);
}

/// Nothing read yet.
pub open spec fn start() -> Progress {
    Progress { rules: no_rules(), conds: Seq::empty() }
}

proof fn lemma_on_words(p: Progress, ws: Seq<Seq<char>>, rel: Seq<char>, dir: Seq<char>)
    requires
        ws.len() > 0,
        are_words(ws),
        ws[0][0] != '#',
    ensures
        on_line(p, line_of(ws), rel, dir) == on_directive(p, ws[0], ws.skip(1), rel, dir),
{
    lines_hold_their_words(ws);
    lemma_tight(line_of(ws));
    reveal_strlit("#");
    lemma_not_prefixed("#"@, line_of(ws));
}

proof fn lemma_one_line(ws: Seq<Seq<char>>, rel: Seq<char>, dir: Seq<char>)
    requires
        ws.len() > 0,
        are_words(ws),
        ws[0][0] != '#',
    ensures
        parsed(line_of(ws), rel, dir) == on_directive(start(), ws[0], ws.skip(1), rel, dir).rules,
{
    lines_hold_their_words(ws);
    lemma_first_line(line_of(ws), Seq::empty());
    lemma_on_words(start(), ws, rel, dir);
    reveal_with_fuel(on_lines, 2);
    let l = lines(line_of(ws));
    assert(l.drop_last() =~= Seq::empty());
    assert(l.last() == line_of(ws));
}

proof fn lemma_two_lines(
    a: Seq<Seq<char>>,
    b: Seq<Seq<char>>,
    rel: Seq<char>,
    dir: Seq<char>,
)
    requires
        a.len() > 0,
        b.len() > 0,
        are_words(a),
        are_words(b),
        a[0][0] != '#',
        b[0][0] != '#',
    ensures
        parsed(line_of(a) + seq!['\n'] + line_of(b), rel, dir) == on_directive(
            on_directive(start(), a[0], a.skip(1), rel, dir),
            b[0],
            b.skip(1),
            rel,
            dir,
        ).rules,
{
    lines_hold_their_words(a);
    lines_hold_their_words(b);
    lemma_first_line(line_of(a), line_of(b));
    lemma_first_line(line_of(b), Seq::empty());
    lemma_on_words(start(), a, rel, dir);
    lemma_on_words(on_directive(start(), a[0], a.skip(1), rel, dir), b, rel, dir);
    reveal_with_fuel(on_lines, 3);
    let l = lines(line_of(a) + seq!['\n'] + line_of(b));
    assert(l =~= seq![line_of(a), line_of(b)]);
    assert(l.drop_last() =~= seq![line_of(a)]);
    assert(l.drop_last().drop_last() =~= Seq::empty());
}

#[verifier::spinoff_prover]
proof fn lemma_names_apart()
    ensures
        "RewriteRule"@ != "RewriteCond"@,
        "AuthType"@ != "RewriteCond"@,
        "AuthType"@ != "RewriteRule"@,
        "AuthName"@ != "RewriteCond"@,
        "AuthName"@ != "RewriteRule"@,
        "AuthName"@ != "AuthType"@,
        "AuthUserFile"@ != "RewriteCond"@,
        "AuthUserFile"@ != "RewriteRule"@,
        "AuthUserFile"@ != "AuthType"@,
        "AuthUserFile"@ != "AuthName"@,
        "AuthGroupFile"@ != "RewriteCond"@,
        "AuthGroupFile"@ != "RewriteRule"@,
        "AuthGroupFile"@ != "AuthType"@,
        "AuthGroupFile"@ != "AuthName"@,
        "AuthGroupFile"@ != "AuthUserFile"@,
        "Require"@ != "RewriteCond"@,
        "Require"@ != "RewriteRule"@,
        "Require"@ != "AuthType"@,
        "Require"@ != "AuthName"@,
        "Require"@ != "AuthUserFile"@,
        "Require"@ != "AuthGroupFile"@,
        "Order"@ != "RewriteCond"@,
        "Order"@ != "RewriteRule"@,
        "Order"@ != "AuthType"@,
        "Order"@ != "AuthName"@,
        "Order"@ != "AuthUserFile"@,
        "Order"@ != "AuthGroupFile"@,
        "Order"@ != "Require"@,
        "Allow"@ != "RewriteCond"@,
        "Allow"@ != "RewriteRule"@,
        "Allow"@ != "AuthType"@,
        "Allow"@ != "AuthName"@,
        "Allow"@ != "AuthUserFile"@,
        "Allow"@ != "AuthGroupFile"@,
        "Allow"@ != "Require"@,
        "Allow"@ != "Order"@,
        "Deny"@ != "RewriteCond"@,
        "Deny"@ != "RewriteRule"@,
        "Deny"@ != "AuthType"@,
        "Deny"@ != "AuthName"@,
        "Deny"@ != "AuthUserFile"@,
        "Deny"@ != "AuthGroupFile"@,
        "Deny"@ != "Require"@,
        "Deny"@ != "Order"@,
        "Deny"@ != "Allow"@,
        "ErrorDocument"@ != "RewriteCond"@,
        "ErrorDocument"@ != "RewriteRule"@,
        "ErrorDocument"@ != "AuthType"@,
        "ErrorDocument"@ != "AuthName"@,
        "ErrorDocument"@ != "AuthUserFile"@,
        "ErrorDocument"@ != "AuthGroupFile"@,
        "ErrorDocument"@ != "Require"@,
        "ErrorDocument"@ != "Order"@,
        "ErrorDocument"@ != "Allow"@,
        "ErrorDocument"@ != "Deny"@,
        "DirectoryIndex"@ != "RewriteCond"@,
        "DirectoryIndex"@ != "RewriteRule"@,
        "DirectoryIndex"@ != "AuthType"@,
        "DirectoryIndex"@ != "AuthName"@,
        "DirectoryIndex"@ != "AuthUserFile"@,
        "DirectoryIndex"@ != "AuthGroupFile"@,
        "DirectoryIndex"@ != "Require"@,
        "DirectoryIndex"@ != "Order"@,
        "DirectoryIndex"@ != "Allow"@,
        "DirectoryIndex"@ != "Deny"@,
        "DirectoryIndex"@ != "ErrorDocument"@,
        "Options"@ != "RewriteCond"@,
        "Options"@ != "RewriteRule"@,
        "Options"@ != "AuthType"@,
        "Options"@ != "AuthName"@,
        "Options"@ != "AuthUserFile"@,
        "Options"@ != "AuthGroupFile"@,
        "Options"@ != "Require"@,
        "Options"@ != "Order"@,
        "Options"@ != "Allow"@,
        "Options"@ != "Deny"@,
        "Options"@ != "ErrorDocument"@,
        "Options"@ != "DirectoryIndex"@,
        "RewriteEngine"@ != "RewriteCond"@,
        "RewriteEngine"@ != "RewriteRule"@,
        "RewriteEngine"@ != "AuthType"@,
        "RewriteEngine"@ != "AuthName"@,
        "RewriteEngine"@ != "AuthUserFile"@,
        "RewriteEngine"@ != "AuthGroupFile"@,
        "RewriteEngine"@ != "Require"@,
        "RewriteEngine"@ != "Order"@,
        "RewriteEngine"@ != "Allow"@,
        "RewriteEngine"@ != "Deny"@,
        "RewriteEngine"@ != "ErrorDocument"@,
        "RewriteEngine"@ != "DirectoryIndex"@,
        "RewriteEngine"@ != "Options"@,
        "Redirect"@ != "RewriteCond"@,
        "Redirect"@ != "RewriteRule"@,
        "Redirect"@ != "AuthType"@,
        "Redirect"@ != "AuthName"@,
        "Redirect"@ != "AuthUserFile"@,
        "Redirect"@ != "AuthGroupFile"@,
        "Redirect"@ != "Require"@,
        "Redirect"@ != "Order"@,
        "Redirect"@ != "Allow"@,
        "Redirect"@ != "Deny"@,
        "Redirect"@ != "ErrorDocument"@,
        "Redirect"@ != "DirectoryIndex"@,
        "Redirect"@ != "Options"@,
        "Redirect"@ != "RewriteEngine"@,
        "RedirectMatch"@ != "RewriteCond"@,
        "RedirectMatch"@ != "RewriteRule"@,
        "RedirectMatch"@ != "AuthType"@,
        "RedirectMatch"@ != "AuthName"@,
        "RedirectMatch"@ != "AuthUserFile"@,
        "RedirectMatch"@ != "AuthGroupFile"@,
        "RedirectMatch"@ != "Require"@,
        "RedirectMatch"@ != "Order"@,
        "RedirectMatch"@ != "Allow"@,
        "RedirectMatch"@ != "Deny"@,
        "RedirectMatch"@ != "ErrorDocument"@,
        "RedirectMatch"@ != "DirectoryIndex"@,
        "RedirectMatch"@ != "Options"@,
        "RedirectMatch"@ != "RewriteEngine"@,
        "RedirectMatch"@ != "Redirect"@,
{
    reveal_strlit("RewriteCond");
    assert("RewriteCond"@.len() == 11);
    reveal_strlit("RewriteRule");
    assert("RewriteRule"@.len() == 11);
    reveal_strlit("AuthType");
    assert("AuthType"@.len() == 8);
    reveal_strlit("AuthName");
    assert("AuthName"@.len() == 8);
    reveal_strlit("AuthUserFile");
    assert("AuthUserFile"@.len() == 12);
    reveal_strlit("AuthGroupFile");
    assert("AuthGroupFile"@.len() == 13);
    reveal_strlit("Require");
    assert("Require"@.len() == 7);
    reveal_strlit("Order");
    assert("Order"@.len() == 5);
    reveal_strlit("Allow");
    assert("Allow"@.len() == 5);
    reveal_strlit("Deny");
    assert("Deny"@.len() == 4);
    reveal_strlit("ErrorDocument");
    assert("ErrorDocument"@.len() == 13);
    reveal_strlit("DirectoryIndex");
    assert("DirectoryIndex"@.len() == 14);
    reveal_strlit("Options");
    assert("Options"@.len() == 7);
    reveal_strlit("RewriteEngine");
    assert("RewriteEngine"@.len() == 13);
    reveal_strlit("Redirect");
    assert("Redirect"@.len() == 8);
    reveal_strlit("RedirectMatch");
    assert("RedirectMatch"@.len() == 13);
    assert("RewriteRule"@[7] != "RewriteCond"@[7]);
    assert("AuthName"@[4] != "AuthType"@[4]);
    assert("Allow"@[0] != "Order"@[0]);
    assert("ErrorDocument"@[0] != "AuthGroupFile"@[0]);
    assert("Options"@[0] != "Require"@[0]);
    assert("RewriteEngine"@[0] != "AuthGroupFile"@[0]);
    assert("RewriteEngine"@[0] != "ErrorDocument"@[0]);
    assert("Redirect"@[0] != "AuthType"@[0]);
    assert("Redirect"@[0] != "AuthName"@[0]);
    assert("RedirectMatch"@[0] != "AuthGroupFile"@[0]);
    assert("RedirectMatch"@[0] != "ErrorDocument"@[0]);
    assert("RedirectMatch"@[2] != "RewriteEngine"@[2]);
}

#[verifier::spinoff_prover]
proof fn lemma_names_are_words()
    ensures
        is_word("RewriteCond"@) && "RewriteCond"@[0] != '#',
        is_word("RewriteRule"@) && "RewriteRule"@[0] != '#',
        is_word("AuthType"@) && "AuthType"@[0] != '#',
        is_word("AuthName"@) && "AuthName"@[0] != '#',
        is_word("AuthUserFile"@) && "AuthUserFile"@[0] != '#',
        is_word("AuthGroupFile"@) && "AuthGroupFile"@[0] != '#',
        is_word("Require"@) && "Require"@[0] != '#',
        is_word("Order"@) && "Order"@[0] != '#',
        is_word("Allow"@) && "Allow"@[0] != '#',
        is_word("Deny"@) && "Deny"@[0] != '#',
        is_word("ErrorDocument"@) && "ErrorDocument"@[0] != '#',
        is_word("DirectoryIndex"@) && "DirectoryIndex"@[0] != '#',
        is_word("Options"@) && "Options"@[0] != '#',
        is_word("RewriteEngine"@) && "RewriteEngine"@[0] != '#',
        is_word("Redirect"@) && "Redirect"@[0] != '#',
        is_word("RedirectMatch"@) && "RedirectMatch"@[0] != '#',
{
    reveal_strlit("RewriteCond");
    reveal_strlit("RewriteRule");
    reveal_strlit("AuthType");
    reveal_strlit("AuthName");
    reveal_strlit("AuthUserFile");
    reveal_strlit("AuthGroupFile");
    reveal_strlit("Require");
    reveal_strlit("Order");
    reveal_strlit("Allow");
    reveal_strlit("Deny");
    reveal_strlit("ErrorDocument");
    reveal_strlit("DirectoryIndex");
    reveal_strlit("Options");
    reveal_strlit("RewriteEngine");
    reveal_strlit("Redirect");
    reveal_strlit("RedirectMatch");
}

/// A directive with its words.
pub open spec fn said(name: Seq<char>, rest: Seq<Seq<char>>) -> Seq<char> {
    line_of(seq![name] + rest)
}

proof fn lemma_said(name: Seq<char>, rest: Seq<Seq<char>>, rel: Seq<char>, dir: Seq<char>)
    requires
        is_word(name),
        name[0] != '#',
        are_words(rest),
    ensures
        parsed(said(name, rest), rel, dir) == on_directive(start(), name, rest, rel, dir).rules,
{
    let ws = seq![name] + rest;
    assert(ws[0] == name);
    assert(ws.skip(1) =~= rest);
    assert forall|i: int| 0 <= i < ws.len() implies is_word(#[trigger] ws[i]) by {
        if i > 0 {
            assert(ws[i] == rest[i - 1]);
        }
    }
    lemma_one_line(ws, rel, dir);
}

// ---------------------------------------------------------------------------
// Users
// ---------------------------------------------------------------------------

/// The kind of authentication, its name, and the files with the passwords and groups:
/// a path that is not absolute is seen from the directory of the rules.
pub proof fn authentication_is_set(word: Seq<char>, rel: Seq<char>, dir: Seq<char>)
    requires
        is_word(word),
    ensures
        parsed(said("AuthType"@, seq![word]), rel, dir) == (RulesView {
            auth_type: Some(word),
            ..no_rules()
        }),
        word[0] != '"' && word.last() != '"' ==> parsed(said("AuthName"@, seq![word]), rel, dir)
            == (RulesView { auth_name: Some(word), ..no_rules() }),
        word[0] == '/' ==> parsed(said("AuthUserFile"@, seq![word]), rel, dir) == (RulesView {
            auth_user_file: Some(word),
            ..no_rules()
        }),
        word[0] == '/' ==> parsed(said("AuthGroupFile"@, seq![word]), rel, dir) == (RulesView {
            auth_group_file: Some(word),
            ..no_rules()
        }),
        word[0] != '/' && dir.len() > 0 && dir.last() != '/' ==> parsed(
            said("AuthUserFile"@, seq![word]),
            rel,
            dir,
        ) == (RulesView { auth_user_file: Some(dir + seq!['/'] + word), ..no_rules() }),
        word[0] != '/' && dir.len() > 0 && dir.last() != '/' ==> parsed(
            said("AuthGroupFile"@, seq![word]),
            rel,
            dir,
        ) == (RulesView { auth_group_file: Some(dir + seq!['/'] + word), ..no_rules() }),
{
    lemma_names_apart();
    lemma_names_are_words();
    let one = seq![word];
    assert(are_words(one));
    lemma_said("AuthType"@, one, rel, dir);
    lemma_said("AuthName"@, one, rel, dir);
    lemma_said("AuthUserFile"@, one, rel, dir);
    lemma_said("AuthGroupFile"@, one, rel, dir);
    assert(join(one, " "@) == word);
    reveal_strlit("/");
    assert("/"@ =~= seq!['/']);
}

/// A name in quotes is taken without them, spaces and all.
pub proof fn names_lose_their_quotes(ws: Seq<Seq<char>>, rel: Seq<char>, dir: Seq<char>)
    requires
        ws.len() > 0,
        are_words(ws),
        ws[0][0] != '"',
        ws.last().last() != '"',
    ensures
        parsed(
            "AuthName"@ + seq![' '] + (seq!['"'] + line_of(ws) + seq!['"']),
            rel,
            dir,
        ) == (RulesView { auth_name: Some(line_of(ws)), ..no_rules() }),
{
    lemma_names_apart();
    lemma_names_are_words();
    let l = line_of(ws);
    lines_hold_their_words(ws);
    lemma_last_of_line(ws);
    let q = seq!['"'] + l + seq!['"'];
    let quoted = quoted_words(ws);
    lemma_quoted_line(ws);
    lemma_said("AuthName"@, quoted, rel, dir);
    let all = seq!["AuthName"@] + quoted;
    assert(all.skip(1) =~= quoted);
    assert(line_of(all) == "AuthName"@ + seq![' '] + line_of(quoted));
    lemma_joined_is_line(quoted);
    assert(q[0] == '"');
    assert(q.skip(1) =~= l + seq!['"']);
    assert((l + seq!['"'])[0] == l[0]);
    assert(trim_start(q, Class::One('"')) == trim_start(q.skip(1), Class::One('"')));
    assert(trim_start(l + seq!['"'], Class::One('"')) == l + seq!['"']);
    lemma_trim_back(l, seq!['"'], Class::One('"'));
    assert(trim_end(l, Class::One('"')) == l);
}

proof fn lemma_last_of_line(ws: Seq<Seq<char>>)
    requires
        ws.len() > 0,
        are_words(ws),
    ensures
        line_of(ws).last() == ws.last().last(),
    decreases ws.len(),
{
    if ws.len() > 1 {
        let rest = ws.skip(1);
        assert forall|i: int| 0 <= i < rest.len() implies is_word(#[trigger] rest[i]) by {
            assert(rest[i] == ws[i + 1]);
        }
        lemma_last_of_line(rest);
        lines_hold_their_words(rest);
        assert(rest.last() == ws.last());
    }
}

/// Words with a quote before the first and behind the last.
pub open spec fn quoted_words(ws: Seq<Seq<char>>) -> Seq<Seq<char>> {
    let front = ws.update(0, seq!['"'] + ws[0]);
    front.update(ws.len() - 1, front[ws.len() - 1] + seq!['"'])
}

proof fn lemma_quoted_line(ws: Seq<Seq<char>>)
    requires
        ws.len() > 0,
        are_words(ws),
    ensures
        are_words(quoted_words(ws)),
        line_of(quoted_words(ws)) == seq!['"'] + line_of(ws) + seq!['"'],
{
    let n = ws.len() - 1;
    let front = ws.update(0, seq!['"'] + ws[0]);
    let both = quoted_words(ws);
    assert forall|i: int| 0 <= i < both.len() implies is_word(#[trigger] both[i]) by {
        assert(is_word(ws[i]));
        let b = both[i];
        assert forall|j: int| 0 <= j < b.len() implies !is_space(#[trigger] b[j]) by {
            if i == 0 {
                if 1 <= j < 1 + ws[0].len() {
                    assert(b[j] == ws[0][j - 1]);
                }
            } else if j < ws[i].len() {
                assert(b[j] == ws[i][j]);
            }
        }
    }
    lemma_front_quoted(ws);
    lemma_back_quoted(front);
    assert(both =~= front.update(n, front[n] + seq!['"']));
}

proof fn lemma_front_quoted(ws: Seq<Seq<char>>)
    requires
        ws.len() > 0,
    ensures
        line_of(ws.update(0, seq!['"'] + ws[0])) == seq!['"'] + line_of(ws),
{
    let f = ws.update(0, seq!['"'] + ws[0]);
    assert(f.skip(1) =~= ws.skip(1));
    assert(line_of(f) =~= seq!['"'] + line_of(ws));
}

proof fn lemma_back_quoted(ws: Seq<Seq<char>>)
    requires
        ws.len() > 0,
    ensures
        line_of(ws.update(ws.len() - 1, ws[ws.len() - 1] + seq!['"'])) == line_of(ws) + seq!['"'],
    decreases ws.len(),
{
    let f = ws.update(ws.len() - 1, ws[ws.len() - 1] + seq!['"']);
    if ws.len() > 1 {
        let rest = ws.skip(1);
        lemma_back_quoted(rest);
        assert(f.skip(1) =~= rest.update(rest.len() - 1, rest[rest.len() - 1] + seq!['"']));
        assert(line_of(f) =~= line_of(ws) + seq!['"']);
    }
}

/// Who may enter: anyone with a password, the users named, or the members of the groups
/// named.
pub proof fn users_are_required(names: Seq<Seq<char>>, rel: Seq<char>, dir: Seq<char>)
    requires
        are_words(names),
    ensures
        parsed(said("Require"@, seq!["valid-user"@]), rel, dir) == (RulesView {
            requires: seq![RequireView::ValidUser],
            ..no_rules()
        }),
        parsed(said("Require"@, seq!["user"@] + names), rel, dir) == (RulesView {
            requires: seq![RequireView::User(names)],
            ..no_rules()
        }),
        parsed(said("Require"@, seq!["group"@] + names), rel, dir) == (RulesView {
            requires: seq![RequireView::Group(names)],
            ..no_rules()
        }),
{
    lemma_names_apart();
    lemma_names_are_words();
    reveal_strlit("valid-user");
    reveal_strlit("user");
    reveal_strlit("group");
    assert(is_word("valid-user"@));
    assert(is_word("user"@));
    assert(is_word("group"@));
    let none = Seq::<RequireView>::empty();
    assert(are_words(seq!["valid-user"@]));
    lemma_said("Require"@, seq!["valid-user"@], rel, dir);
    assert(none.push(RequireView::ValidUser) =~= seq![RequireView::ValidUser]);
    lemma_more_words("user"@, names);
    lemma_said("Require"@, seq!["user"@] + names, rel, dir);
    assert((seq!["user"@] + names).skip(1) =~= names);
    assert(none.push(RequireView::User(names)) =~= seq![RequireView::User(names)]);
    lemma_more_words("group"@, names);
    lemma_said("Require"@, seq!["group"@] + names, rel, dir);
    assert((seq!["group"@] + names).skip(1) =~= names);
    assert(none.push(RequireView::Group(names)) =~= seq![RequireView::Group(names)]);
}

proof fn lemma_more_words(w: Seq<char>, ws: Seq<Seq<char>>)
    requires
        is_word(w),
        are_words(ws),
    ensures
        are_words(seq![w] + ws),
{
    let all = seq![w] + ws;
    assert forall|i: int| 0 <= i < all.len() implies is_word(#[trigger] all[i]) by {
        if i > 0 {
            assert(all[i] == ws[i - 1]);
        }
    }
}

// ---------------------------------------------------------------------------
// Clients
// ---------------------------------------------------------------------------

/// What is asked first: whether a client may come in, or whether it has to stay out.
pub proof fn order_is_set(word: Seq<char>, rel: Seq<char>, dir: Seq<char>)
    requires
        is_word(word),
    ensures
        same_letters(word, "allow,deny"@) ==> parsed(said("Order"@, seq![word]), rel, dir) == (
        RulesView { order: Some(Order::AllowDeny), ..no_rules() }),
        same_letters(word, "deny,allow"@) ==> parsed(said("Order"@, seq![word]), rel, dir) == (
        RulesView { order: Some(Order::DenyAllow), ..no_rules() }),
        !same_letters(word, "allow,deny"@) && !same_letters(word, "deny,allow"@) ==> parsed(
            said("Order"@, seq![word]),
            rel,
            dir,
        ) == no_rules(),
{
    lemma_names_apart();
    lemma_names_are_words();
    reveal_strlit("allow,deny");
    reveal_strlit("deny,allow");
    assert(lower("allow,deny"@) =~= "allow,deny"@);
    assert(lower("deny,allow"@) =~= "deny,allow"@);
    assert("allow,deny"@[0] != "deny,allow"@[0]);
    assert(are_words(seq![word]));
    lemma_said("Order"@, seq![word], rel, dir);
}

/// Whom a word behind `from` means.
pub open spec fn means(word: Seq<char>, rule: AccessRule) -> bool {
    match rule {
        AccessRule::All => same_letters(word, "all"@),
        AccessRule::Ip(ip) => !same_letters(word, "all"@) && !word.contains('/') && address(word)
            == Some(ip),
        AccessRule::Cidr(ip, bits) => exists|a: Seq<char>|
            !a.contains('/') && address(a) == Some(ip) && word == #[trigger] (a + seq!['/'])
                + decimal(bits as int),
        AccessRule::Host => !same_letters(word, "all"@) && !word.contains('/') && address(word)
            is None,
    }
}

/// Clients are let in or kept out all at once, by their address, or by their network.
pub proof fn clients_are_named(word: Seq<char>, rule: AccessRule, rel: Seq<char>, dir: Seq<char>)
    requires
        is_word(word),
        means(word, rule),
        !same_letters(word, "from"@),
    ensures
        parsed(said("Allow"@, seq!["from"@, word]), rel, dir) == (RulesView {
            allow: seq![rule],
            ..no_rules()
        }),
        parsed(said("Deny"@, seq!["from"@, word]), rel, dir) == (RulesView {
            deny: seq![rule],
            ..no_rules()
        }),
{
    lemma_names_apart();
    lemma_names_are_words();
    reveal_strlit("from");
    assert(is_word("from"@));
    let ws = seq!["from"@, word];
    assert(are_words(ws));
    lemma_said("Allow"@, ws, rel, dir);
    lemma_said("Deny"@, ws, rel, dir);
    lemma_meant(word, rule);
    reveal_with_fuel(sources, 3);
    assert(ws.drop_last() =~= seq!["from"@]);
    assert(ws.drop_last().drop_last() =~= Seq::empty());
    assert(sources(ws) =~= seq![rule]);
    assert(Seq::<AccessRule>::empty() + seq![rule] =~= seq![rule]);
}

proof fn lemma_meant(word: Seq<char>, rule: AccessRule)
    requires
        means(word, rule),
    ensures
        crate::servers::htaccess::source(word) == rule,
{
    reveal_strlit("all");
    match rule {
        AccessRule::All => {},
        AccessRule::Ip(ip) => {
            lemma_lacking(word, '/');
        },
        AccessRule::Cidr(ip, bits) => {
            let a = choose|a: Seq<char>|
                !a.contains('/') && address(a) == Some(ip) && word == #[trigger] (a + seq!['/'])
                    + decimal(bits as int);
            lemma_around(a, '/', decimal(bits as int));
            crate::digits::written_reads_back(bits as int, 10);
            assert(lower(word)[a.len() as int] == '/');
            assert(lower("all"@) =~= "all"@);
            assert forall|i: int| 0 <= i < "all"@.len() implies #[trigger] "all"@[i] != '/' by {}
            if same_letters(word, "all"@) {
                assert("all"@[a.len() as int] == '/');
            }
        },
        AccessRule::Host => {
            lemma_lacking(word, '/');
        },
    }
}

// ---------------------------------------------------------------------------
// Documents
// ---------------------------------------------------------------------------

/// What is shown for a status: a page, a path, or a text of several words.
pub proof fn error_documents_are_set(
    code: u16,
    ws: Seq<Seq<char>>,
    rel: Seq<char>,
    dir: Seq<char>,
)
    requires
        ws.len() > 0,
        are_words(ws),
    ensures
        parsed(said("ErrorDocument"@, seq![decimal(code as int)] + ws), rel, dir) == (RulesView {
            error_documents: seq![(code, line_of(ws))],
            ..no_rules()
        }),
{
    lemma_names_apart();
    lemma_names_are_words();
    lemma_number_is_word(code as int);
    lemma_more_words(decimal(code as int), ws);
    let all = seq![decimal(code as int)] + ws;
    lemma_said("ErrorDocument"@, all, rel, dir);
    assert(all.skip(1) =~= ws);
    lemma_joined_is_line(ws);
    numbers_read_back(code as int);
    assert(Seq::<(u16, Seq<char>)>::empty().push((code, line_of(ws))) =~= seq![
        (code, line_of(ws)),
    ]);
}

proof fn lemma_number_is_word(n: int)
    requires
        0 <= n,
    ensures
        is_word(decimal(n)),
{
    lemma_decimal_digits(n);
    assert forall|i: int| 0 <= i < decimal(n).len() implies !is_space(#[trigger] decimal(n)[i]) by {
        assert('0' <= decimal(n)[i] <= '9');
    }
}

/// The names that stand for a directory.
pub proof fn index_names_are_set(names: Seq<Seq<char>>, rel: Seq<char>, dir: Seq<char>)
    requires
        are_words(names),
    ensures
        names.len() > 0 ==> parsed(said("DirectoryIndex"@, names), rel, dir) == (RulesView {
            directory_index: Some(names),
            ..no_rules()
        }),
        names.len() == 0 ==> parsed(said("DirectoryIndex"@, names), rel, dir) == no_rules(),
{
    lemma_names_apart();
    lemma_names_are_words();
    lemma_said("DirectoryIndex"@, names, rel, dir);
}

/// Options switch listings and links on and off.
pub proof fn options_switch(rel: Seq<char>, dir: Seq<char>)
    ensures
        parsed(said("Options"@, seq!["Indexes"@]), rel, dir).indexes == Some(true),
        parsed(said("Options"@, seq!["+Indexes"@]), rel, dir).indexes == Some(true),
        parsed(said("Options"@, seq!["-Indexes"@]), rel, dir).indexes == Some(false),
        parsed(said("Options"@, seq!["FollowSymLinks"@]), rel, dir).follow_symlinks == Some(true),
        parsed(said("Options"@, seq!["+FollowSymLinks"@]), rel, dir).follow_symlinks == Some(true),
        parsed(said("Options"@, seq!["-FollowSymLinks"@]), rel, dir).follow_symlinks == Some(
            false,
        ),
        parsed(said("Options"@, seq!["-Indexes"@, "+FollowSymLinks"@]), rel, dir) == (RulesView {
            indexes: Some(false),
            follow_symlinks: Some(true),
            ..no_rules()
        }),
{
    lemma_options_apart();
    lemma_option("Indexes"@, rel, dir);
    lemma_option("+Indexes"@, rel, dir);
    lemma_option("-Indexes"@, rel, dir);
    lemma_option("FollowSymLinks"@, rel, dir);
    lemma_option("+FollowSymLinks"@, rel, dir);
    lemma_option("-FollowSymLinks"@, rel, dir);
    lemma_options("-Indexes"@, "+FollowSymLinks"@, rel, dir);
}

proof fn lemma_options_apart()
    ensures
        is_word("Indexes"@) && is_word("+Indexes"@) && is_word("-Indexes"@),
        is_word("FollowSymLinks"@) && is_word("+FollowSymLinks"@) && is_word("-FollowSymLinks"@),
        "-Indexes"@ != "Indexes"@ && "-Indexes"@ != "+Indexes"@,
        "FollowSymLinks"@ != "Indexes"@ && "FollowSymLinks"@ != "+Indexes"@ && "FollowSymLinks"@
            != "-Indexes"@,
        "+FollowSymLinks"@ != "Indexes"@ && "+FollowSymLinks"@ != "+Indexes"@ && "+FollowSymLinks"@
            != "-Indexes"@,
        "-FollowSymLinks"@ != "Indexes"@ && "-FollowSymLinks"@ != "+Indexes"@ && "-FollowSymLinks"@
            != "-Indexes"@,
        "-FollowSymLinks"@ != "FollowSymLinks"@ && "-FollowSymLinks"@ != "+FollowSymLinks"@,
{
    reveal_strlit("Indexes");
    reveal_strlit("+Indexes");
    reveal_strlit("-Indexes");
    reveal_strlit("FollowSymLinks");
    reveal_strlit("+FollowSymLinks");
    reveal_strlit("-FollowSymLinks");
    assert("Indexes"@.len() == 7 && "+Indexes"@.len() == 8 && "-Indexes"@.len() == 8);
    assert("FollowSymLinks"@.len() == 14);
    assert("+FollowSymLinks"@.len() == 15 && "-FollowSymLinks"@.len() == 15);
    assert("+Indexes"@[0] != "-Indexes"@[0]);
    assert("+FollowSymLinks"@[0] != "-FollowSymLinks"@[0]);
}

proof fn lemma_options(v: Seq<char>, w: Seq<char>, rel: Seq<char>, dir: Seq<char>)
    requires
        is_word(v),
        is_word(w),
    ensures
        parsed(said("Options"@, seq![v, w]), rel, dir) == crate::servers::htaccess::on_option(
            crate::servers::htaccess::on_option(no_rules(), v),
            w,
        ),
{
    lemma_names_apart();
    lemma_names_are_words();
    let two = seq![v, w];
    assert(are_words(two));
    lemma_said("Options"@, two, rel, dir);
    reveal_with_fuel(on_options, 3);
    assert(two.drop_last() =~= seq![v]);
    assert(two.drop_last().drop_last() =~= Seq::empty());
}

proof fn lemma_option(w: Seq<char>, rel: Seq<char>, dir: Seq<char>)
    requires
        is_word(w),
    ensures
        parsed(said("Options"@, seq![w]), rel, dir) == crate::servers::htaccess::on_option(
            no_rules(),
            w,
        ),
{
    lemma_names_apart();
    lemma_names_are_words();
    assert(are_words(seq![w]));
    lemma_said("Options"@, seq![w], rel, dir);
    reveal_with_fuel(on_options, 2);
    assert(seq![w].drop_last() =~= Seq::empty());
}

// ---------------------------------------------------------------------------
// Other places
// ---------------------------------------------------------------------------

/// The status of a redirect is a number, one of four words, or 302 where none is given.
pub open spec fn asks_for(word: Seq<char>, status: u16) -> bool {
    ||| word == decimal(status as int)
    ||| same_letters(word, "permanent"@) && status == 301
    ||| same_letters(word, "temp"@) && status == 302
    ||| same_letters(word, "seeother"@) && status == 303
    ||| same_letters(word, "gone"@) && status == 410
}

/// A redirect leads from a path, or from all that a pattern matches, to a target.
pub proof fn redirects_are_added(
    word: Seq<char>,
    status: u16,
    from: Seq<char>,
    to: Seq<char>,
    rel: Seq<char>,
    dir: Seq<char>,
)
    requires
        is_word(word),
        is_word(from),
        is_word(to),
        asks_for(word, status),
    ensures
        parsed(said("Redirect"@, seq![word, from, to]), rel, dir) == (RulesView {
            redirects: seq![RedirectView { is_regex: false, status, pattern: from, target: to }],
            ..no_rules()
        }),
        parsed(said("RedirectMatch"@, seq![word, from, to]), rel, dir) == (RulesView {
            redirects: seq![RedirectView { is_regex: true, status, pattern: from, target: to }],
            ..no_rules()
        }),
{
    lemma_asked(word, status);
    let three = seq![word, from, to];
    assert(are_words(three));
    lemma_redirect(three, rel, dir);
    let none = Seq::<RedirectView>::empty();
    let a = RedirectView { is_regex: false, status, pattern: from, target: to };
    let b = RedirectView { is_regex: true, status, pattern: from, target: to };
    assert(three[0] == word && three[1] == from && three[2] == to);
    assert(none.push(a) =~= seq![a]);
    assert(none.push(b) =~= seq![b]);
}

/// A redirect without a status has the status 302.
pub proof fn redirects_are_found_by_default(
    from: Seq<char>,
    to: Seq<char>,
    rel: Seq<char>,
    dir: Seq<char>,
)
    requires
        is_word(from),
        is_word(to),
        from[0] == '/' || from[0] == '^',
    ensures
        parsed(said("Redirect"@, seq![from, to]), rel, dir) == (RulesView {
            redirects: seq![
                RedirectView { is_regex: false, status: 302, pattern: from, target: to },
            ],
            ..no_rules()
        }),
        parsed(said("RedirectMatch"@, seq![from, to]), rel, dir) == (RulesView {
            redirects: seq![
                RedirectView { is_regex: true, status: 302, pattern: from, target: to },
            ],
            ..no_rules()
        }),
{
    lemma_paths_are_no_status(from);
    let two = seq![from, to];
    assert(are_words(two));
    lemma_redirect(two, rel, dir);
    let none = Seq::<RedirectView>::empty();
    let c = RedirectView { is_regex: false, status: 302, pattern: from, target: to };
    let d = RedirectView { is_regex: true, status: 302, pattern: from, target: to };
    assert(two[0] == from && two[1] == to);
    assert(none.push(c) =~= seq![c]);
    assert(none.push(d) =~= seq![d]);
}

proof fn lemma_redirect(rest: Seq<Seq<char>>, rel: Seq<char>, dir: Seq<char>)
    requires
        are_words(rest),
    ensures
        parsed(said("Redirect"@, rest), rel, dir) == crate::servers::htaccess::on_redirect(
            no_rules(),
            false,
            rest,
        ),
        parsed(said("RedirectMatch"@, rest), rel, dir) == crate::servers::htaccess::on_redirect(
            no_rules(),
            true,
            rest,
        ),
{
    lemma_names_apart();
    lemma_names_are_words();
    lemma_said("Redirect"@, rest, rel, dir);
    lemma_said("RedirectMatch"@, rest, rel, dir);
}

proof fn lemma_asked(word: Seq<char>, status: u16)
    requires
        asks_for(word, status),
    ensures
        (match crate::digits::number16(word) {
            Some(code) => Some(code),
            None => crate::servers::htaccess::keyword_status(word),
        }) == Some(status),
{
    reveal_strlit("permanent");
    reveal_strlit("temp");
    reveal_strlit("seeother");
    reveal_strlit("gone");
    assert(lower("permanent"@) =~= "permanent"@);
    assert(lower("temp"@) =~= "temp"@);
    assert(lower("seeother"@) =~= "seeother"@);
    assert(lower("gone"@) =~= "gone"@);
    assert("temp"@[0] != "gone"@[0]);
    if word == decimal(status as int) {
        numbers_read_back(status as int);
    } else {
        let l = lower(word);
        assert(l[0] == 'p' || l[0] == 't' || l[0] == 's' || l[0] == 'g');
        assert(l[0] == crate::text::lower_char(word[0]));
        lemma_no_number(word);
    }
}

proof fn lemma_paths_are_no_status(w: Seq<char>)
    requires
        w.len() > 0,
        w[0] == '/' || w[0] == '^',
    ensures
        crate::digits::number16(w) is None,
        crate::servers::htaccess::keyword_status(w) is None,
{
    reveal_strlit("permanent");
    reveal_strlit("temp");
    reveal_strlit("seeother");
    reveal_strlit("gone");
    let l = lower(w);
    assert(l[0] == w[0]);
    lemma_no_number(w);
}

proof fn lemma_no_number(w: Seq<char>)
    requires
        w.len() > 0,
        !(48 <= w[0] as u32 <= 57),
        w[0] != '+',
    ensures
        crate::digits::number16(w) is None,
{
    lemma_no_value(w);
}

proof fn lemma_no_value(w: Seq<char>)
    requires
        w.len() > 0,
        !(48 <= w[0] as u32 <= 57),
    ensures
        crate::digits::value(w, 10) is None,
    decreases w.len(),
{
    reveal_with_fuel(crate::digits::value, 2);
    if w.len() > 1 {
        assert(w.drop_last()[0] == w[0]);
        lemma_no_value(w.drop_last());
    } else {
        assert(w.last() == w[0]);
        assert(crate::digits::digit_value(w[0], 10) is None);
    }
}

/// Rewriting is on where it is said so, in letters of any case.
pub proof fn rewriting_is_switched(word: Seq<char>, rel: Seq<char>, dir: Seq<char>)
    requires
        is_word(word),
    ensures
        parsed(said("RewriteEngine"@, seq![word]), rel, dir) == (RulesView {
            rewrite_engine: same_letters(word, "on"@),
            ..no_rules()
        }),
{
    lemma_names_apart();
    lemma_names_are_words();
    assert(are_words(seq![word]));
    lemma_said("RewriteEngine"@, seq![word], rel, dir);
}

/// Flags in brackets, with a comma between each two.
pub open spec fn bracketed(list: Seq<Seq<char>>) -> Seq<char> {
    seq!['['] + comma_list(list) + seq![']']
}

/// Words with a comma between each two.
pub open spec fn comma_list(list: Seq<Seq<char>>) -> Seq<char>
    decreases list.len(),
{
    if list.len() == 0 {
        Seq::empty()
    } else if list.len() == 1 {
        list[0]
    } else {
        comma_list(list.drop_last()) + seq![','] + list.last()
    }
}

/// Whether a word can be a flag.
pub open spec fn is_flag(w: Seq<char>) -> bool {
    is_word(w) && !w.contains(',') && !w.contains('[') && !w.contains(']')
}

/// Flags are read one by one.
pub proof fn flags_are_read(list: Seq<Seq<char>>)
    requires
        list.len() > 0,
        forall|i: int| 0 <= i < list.len() ==> is_flag(#[trigger] list[i]),
    ensures
        flags(bracketed(list)) == list,
        is_word(bracketed(list)),
{
    lemma_comma_list(list);
    let c = comma_list(list);
    let b = bracketed(list);
    assert(b.skip(1) =~= c + seq![']']);
    assert(trim_start(b, Class::One('[')) == trim_start(c + seq![']'], Class::One('[')));
    assert((c + seq![']'])[0] == c[0]);
    assert(c.contains(c[0]));
    assert(trim_start(c + seq![']'], Class::One('[')) == c + seq![']']);
    lemma_trim_back(c, seq![']'], Class::One(']'));
    assert(c.contains(c[c.len() - 1]));
    assert(trim_end(c, Class::One(']')) == c);
    lemma_none_empty(list);
    assert forall|i: int| 0 <= i < b.len() implies !is_space(#[trigger] b[i]) by {
        if 0 < i < b.len() - 1 {
            assert(b[i] == c[i - 1]);
        }
    }
}

proof fn lemma_none_empty(list: Seq<Seq<char>>)
    requires
        forall|i: int| 0 <= i < list.len() ==> is_flag(#[trigger] list[i]),
    ensures
        nonempty(list) == list,
    decreases list.len(),
{
    reveal(Seq::filter);
    if list.len() > 0 {
        let d = list.drop_last();
        assert forall|i: int| 0 <= i < d.len() implies is_flag(#[trigger] d[i]) by {
            assert(d[i] == list[i]);
        }
        lemma_none_empty(d);
        assert(is_flag(list[list.len() - 1]));
        assert(d.push(list.last()) =~= list);
    } else {
        assert(list =~= Seq::empty());
    }
}

proof fn lemma_comma_list(list: Seq<Seq<char>>)
    requires
        list.len() > 0,
        forall|i: int| 0 <= i < list.len() ==> is_flag(#[trigger] list[i]),
    ensures
        split(comma_list(list), ',') == list,
        comma_list(list).len() > 0,
        !comma_list(list).contains('[') && !comma_list(list).contains(']'),
        forall|i: int|
            0 <= i < comma_list(list).len() ==> !is_space(#[trigger] comma_list(list)[i]),
    decreases list.len(),
{
    let w = list[list.len() - 1];
    assert(is_flag(w));
    lemma_lacking(w, ',');
    if list.len() == 1 {
        assert(list =~= seq![w]);
    } else {
        let d = list.drop_last();
        assert forall|i: int| 0 <= i < d.len() implies is_flag(#[trigger] d[i]) by {
            assert(d[i] == list[i]);
        }
        lemma_comma_list(d);
        let c = comma_list(d);
        crate::text::lemma_split_joined(c, ',', w);
        assert(d + seq![w] =~= list);
        let s = c + seq![','] + w;
        assert forall|i: int| 0 <= i < s.len() implies #[trigger] s[i] != '[' && s[i] != ']'
            && !is_space(s[i]) by {
            if i < c.len() {
                assert(s[i] == c[i]);
                assert(c.contains(c[i]));
            } else if i > c.len() {
                assert(s[i] == w[i - c.len() - 1]);
                assert(w.contains(w[i - c.len() - 1]));
            }
        }
    }
}

/// A rule has its pattern, its substitution, its flags, and the directory it stands in.
pub proof fn rules_are_added(
    pattern: Seq<char>,
    substitution: Seq<char>,
    list: Seq<Seq<char>>,
    rel: Seq<char>,
    dir: Seq<char>,
)
    requires
        is_word(pattern),
        is_word(substitution),
        list.len() > 0,
        forall|i: int| 0 <= i < list.len() ==> is_flag(#[trigger] list[i]),
    ensures
        parsed(said("RewriteRule"@, seq![pattern, substitution, bracketed(list)]), rel, dir) == (
        RulesView {
            rewrite_rules: seq![
                RewriteRuleView {
                    pattern,
                    substitution,
                    flags: list,
                    conds: Seq::empty(),
                    dir: rel,
                },
            ],
            ..no_rules()
        }),
        parsed(said("RewriteRule"@, seq![pattern, substitution]), rel, dir) == (RulesView {
            rewrite_rules: seq![
                RewriteRuleView {
                    pattern,
                    substitution,
                    flags: Seq::empty(),
                    conds: Seq::empty(),
                    dir: rel,
                },
            ],
            ..no_rules()
        }),
{
    lemma_names_apart();
    lemma_names_are_words();
    flags_are_read(list);
    let three = seq![pattern, substitution, bracketed(list)];
    let two = seq![pattern, substitution];
    assert(are_words(three));
    assert(are_words(two));
    lemma_said("RewriteRule"@, three, rel, dir);
    lemma_said("RewriteRule"@, two, rel, dir);
    let none = Seq::<RewriteRuleView>::empty();
    let a = RewriteRuleView {
        pattern,
        substitution,
        flags: list,
        conds: Seq::empty(),
        dir: rel,
    };
    let b = RewriteRuleView {
        pattern,
        substitution,
        flags: Seq::empty(),
        conds: Seq::empty(),
        dir: rel,
    };
    assert(none.push(a) =~= seq![a]);
    assert(none.push(b) =~= seq![b]);
}

/// A condition belongs to the rule after it: a `!` turns its pattern round, and `NC`
/// lets the case of letters go.
pub proof fn conditions_belong_to_the_next_rule(
    test: Seq<char>,
    pattern: Seq<char>,
    turned: bool,
    nocase: bool,
    from: Seq<char>,
    to: Seq<char>,
    rel: Seq<char>,
    dir: Seq<char>,
)
    requires
        is_word(test),
        is_word(pattern),
        pattern[0] != '!',
        is_word(from),
        is_word(to),
    ensures
        ({
            let written = if turned {
                seq!['!'] + pattern
            } else {
                pattern
            };
            let condition = if nocase {
                seq![test, written, bracketed(seq!["NC"@])]
            } else {
                seq![test, written]
            };
            parsed(
                said("RewriteCond"@, condition) + seq!['\n'] + said("RewriteRule"@, seq![from, to]),
                rel,
                dir,
            ) == (RulesView {
                rewrite_rules: seq![
                    RewriteRuleView {
                        pattern: from,
                        substitution: to,
                        flags: Seq::empty(),
                        conds: seq![
                            RewriteCondView {
                                test_string: test,
                                pattern,
                                negate: turned,
                                nocase,
                            },
                        ],
                        dir: rel,
                    },
                ],
                ..no_rules()
            })
        }),
{
    reveal_strlit("NC");
    reveal_strlit("!");
    assert("!"@ =~= seq!['!']);
    let written = if turned {
        seq!['!'] + pattern
    } else {
        pattern
    };
    assert(is_flag("NC"@));
    let nc = seq!["NC"@];
    flags_are_read(nc);
    let condition = if nocase {
        seq![test, written, bracketed(nc)]
    } else {
        seq![test, written]
    };
    assert(is_word(written)) by {
        assert forall|i: int| 0 <= i < written.len() implies !is_space(#[trigger] written[i]) by {
            if turned && i > 0 {
                assert(written[i] == pattern[i - 1]);
            }
        }
    }
    if turned {
        lemma_prefixed("!"@, pattern);
        assert(written.skip(1) =~= pattern);
    } else {
        lemma_not_prefixed("!"@, pattern);
    }
    assert(are_words(condition));
    let rule = seq![from, to];
    assert(are_words(rule));
    lemma_condition_and_rule(condition, rule, rel, dir);
    assert(crate::servers::htaccess::has_flag(nc, "NC"@)) by {
        assert(same_letters(nc[0], "NC"@));
    }
    let c = RewriteCondView { test_string: test, pattern, negate: turned, nocase };
    let read = crate::servers::htaccess::cond(condition);
    assert(read.negate == turned);
    assert(read.pattern =~= pattern);
    assert(read.nocase == nocase);
    assert(Seq::<RewriteCondView>::empty().push(c) =~= seq![c]);
    let r = RewriteRuleView {
        pattern: from,
        substitution: to,
        flags: Seq::empty(),
        conds: seq![c],
        dir: rel,
    };
    assert(Seq::<RewriteRuleView>::empty().push(r) =~= seq![r]);
}

proof fn lemma_condition_and_rule(
    condition: Seq<Seq<char>>,
    rule: Seq<Seq<char>>,
    rel: Seq<char>,
    dir: Seq<char>,
)
    requires
        are_words(condition),
        are_words(rule),
        condition.len() >= 2,
        rule.len() == 2,
    ensures
        parsed(said("RewriteCond"@, condition) + seq!['\n'] + said("RewriteRule"@, rule), rel, dir)
            == (RulesView {
            rewrite_rules: Seq::<RewriteRuleView>::empty().push(
                RewriteRuleView {
                    pattern: rule[0],
                    substitution: rule[1],
                    flags: Seq::empty(),
                    conds: Seq::<RewriteCondView>::empty().push(
                        crate::servers::htaccess::cond(condition),
                    ),
                    dir: rel,
                },
            ),
            ..no_rules()
        }),
{
    lemma_names_apart();
    lemma_names_are_words();
    let a = seq!["RewriteCond"@] + condition;
    let b = seq!["RewriteRule"@] + rule;
    lemma_more_words("RewriteCond"@, condition);
    lemma_more_words("RewriteRule"@, rule);
    assert(a.skip(1) =~= condition);
    assert(b.skip(1) =~= rule);
    lemma_two_lines(a, b, rel, dir);
}

/// Each line adds to what the lines before it said, and what it says of the same thing
/// takes the place of what they said.
pub proof fn later_lines_add(
    first: Seq<char>,
    second: Seq<char>,
    names: Seq<Seq<char>>,
    rel: Seq<char>,
    dir: Seq<char>,
)
    requires
        is_word(first),
        is_word(second),
        names.len() > 0,
        are_words(names),
    ensures
        parsed(
            said("AuthType"@, seq![first]) + seq!['\n'] + said("AuthType"@, seq![second]),
            rel,
            dir,
        ).auth_type == Some(second),
        parsed(
            said("AuthType"@, seq![first]) + seq!['\n'] + said("DirectoryIndex"@, names),
            rel,
            dir,
        ) == (RulesView {
            auth_type: Some(first),
            directory_index: Some(names),
            ..no_rules()
        }),
{
    lemma_names_apart();
    lemma_names_are_words();
    let one = seq![first];
    let two = seq![second];
    assert(are_words(one));
    assert(are_words(two));
    lemma_more_words("AuthType"@, one);
    lemma_more_words("AuthType"@, two);
    lemma_more_words("DirectoryIndex"@, names);
    let a = seq!["AuthType"@] + one;
    let b = seq!["AuthType"@] + two;
    let c = seq!["DirectoryIndex"@] + names;
    assert(a.skip(1) =~= one);
    assert(b.skip(1) =~= two);
    assert(c.skip(1) =~= names);
    lemma_two_lines(a, b, rel, dir);
    lemma_two_lines(a, c, rel, dir);
}

/// Empty lines, comments and directives that nobody knows say nothing.
pub proof fn other_lines_say_nothing(p: Progress, line: Seq<char>, rel: Seq<char>, dir: Seq<char>)
    ensures
        trim(line).len() == 0 ==> on_line(p, line, rel, dir) == p,
        trim(line).len() > 0 && trim(line)[0] == '#' ==> on_line(p, line, rel, dir) == p,
{
    reveal_strlit("#");
    let t = trim(line);
    if t.len() > 0 && t[0] == '#' {
        assert(t.subrange(0, 1) =~= "#"@);
        assert(starts_with(t, "#"@));
    }
}


/// A rule takes the conditions that stand before it, and leaves none to the rule after it;
/// a condition waits for its rule.
pub proof fn rules_take_their_conditions(
    p: Progress,
    from: Seq<char>,
    to: Seq<char>,
    rel: Seq<char>,
    dir: Seq<char>,
)
    requires
        is_word(from),
        is_word(to),
    ensures
        ({
            let q = on_line(p, said("RewriteRule"@, seq![from, to]), rel, dir);
            &&& q.conds == Seq::<RewriteCondView>::empty()
            &&& q.rules.rewrite_rules.len() == p.rules.rewrite_rules.len() + 1
            &&& q.rules.rewrite_rules.last().conds == p.conds
            &&& q.rules.rewrite_rules.last().pattern == from
            &&& q.rules.rewrite_rules.last().substitution == to
            &&& q.rules.rewrite_rules.last().dir == rel
            &&& q.rules.rewrite_rules.drop_last() == p.rules.rewrite_rules
        }),
        ({
            let q = on_line(p, said("RewriteCond"@, seq![from, to]), rel, dir);
            &&& q.rules == p.rules
            &&& q.conds.len() == p.conds.len() + 1
            &&& q.conds.drop_last() == p.conds
            &&& q.conds.last().test_string == from
        }),
{
    lemma_names_apart();
    lemma_names_are_words();
    let rest = seq![from, to];
    assert(are_words(rest));
    let a = seq!["RewriteRule"@] + rest;
    let b = seq!["RewriteCond"@] + rest;
    lemma_more_words("RewriteRule"@, rest);
    lemma_more_words("RewriteCond"@, rest);
    assert(a.skip(1) =~= rest);
    assert(b.skip(1) =~= rest);
    lemma_on_words(p, a, rel, dir);
    lemma_on_words(p, b, rel, dir);
    let q = on_line(p, said("RewriteRule"@, rest), rel, dir);
    let c = on_line(p, said("RewriteCond"@, rest), rel, dir);
    assert(q.rules.rewrite_rules.drop_last() =~= p.rules.rewrite_rules);
    assert(c.conds.drop_last() =~= p.conds);
}

/// The lines of a file are read one after the other.
pub proof fn lines_are_read_in_turn(
    file: Seq<Seq<char>>,
    line: Seq<char>,
    rel: Seq<char>,
    dir: Seq<char>,
)
    ensures
        on_lines(Seq::empty(), rel, dir) == start(),
        on_lines(file.push(line), rel, dir) == on_line(on_lines(file, rel, dir), line, rel, dir),
{
    assert(file.push(line).drop_last() =~= file);
}

} // verus!
