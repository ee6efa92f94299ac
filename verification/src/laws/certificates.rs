//! Certificates: how they are read, had and asked for; and what new settings change.

use vstd::prelude::*;

use crate::configs::resolve::ResolvedView;
use crate::digits::{decimal, digit, number, value};
use crate::laws::directives::lemma_first_line;
use crate::laws::measures::pair;
use crate::laws::wording::is_word;
use crate::outside::{json_document, pem_certificate};
use crate::paths::same_path;
use crate::servers::acme::{
    after_reply, ask, asks_for_token, challenge_reply, coordinates, key_authorization, state_of,
    succeeded, thumbprint, AskView, OrderView, Phase,
};
use crate::servers::certs::{
    der_element, live_from, moment_of, stage_after, valid_at, validity, LiveEntryView, Stage,
};
use crate::servers::json::Json;
use crate::servers::reload::{
    begun, kept_dir, kept_listener, rebinds, reload_after, reopens, restarts, unbound,
    ReloadEventView, ReloadStepView, ReloadView,
};
use crate::supports::calendar::{day_number, formula_counts_days, is_date};
use crate::text::{lines, stands_at, strip_suffix};
use vstd::utf8::encode_utf8;

verus! {

// ---------------------------------------------------------------------------
// Elements and times
// ---------------------------------------------------------------------------

/// An element is its tag, its length and its content: a length below 128 takes one byte,
/// and a longer one says first in how many bytes it stands.
pub proof fn elements_are_read(tag: u8, content: Seq<u8>, rest: Seq<u8>)
    ensures
        content.len() < 128 ==> der_element(seq![tag, content.len() as u8] + content + rest)
            == Some((tag, content, rest)),
        128 <= content.len() < 256 ==> der_element(
            seq![tag, 0x81u8, content.len() as u8] + content + rest,
        ) == Some((tag, content, rest)),
        256 <= content.len() < 65536 ==> der_element(
            seq![tag, 0x82u8, (content.len() / 256) as u8, (content.len() % 256) as u8] + content
                + rest,
        ) == Some((tag, content, rest)),
{
    let n = content.len() as int;
    if n < 128 {
        let h = seq![tag, n as u8];
        let d = h + content + rest;
        assert(d[0] == tag && d[1] == n as u8);
        assert(d.subrange(2, 2 + n) =~= content);
        assert(d.skip(2 + n) =~= rest);
    } else if n < 256 {
        let h = seq![tag, 0x81u8, n as u8];
        let d = h + content + rest;
        assert(d[0] == tag && d[1] == 0x81 && d[2] == n as u8);
        reveal_with_fuel(crate::servers::certs::big_endian, 2);
        assert(d.subrange(2, 3) =~= seq![n as u8]);
        assert(seq![n as u8].drop_last() =~= Seq::empty());
        assert(d.subrange(3, 3 + n) =~= content);
        assert(d.skip(3 + n) =~= rest);
    } else if n < 65536 {
        let h = seq![tag, 0x82u8, (n / 256) as u8, (n % 256) as u8];
        let d = h + content + rest;
        assert(d[0] == tag && d[1] == 0x82 && d[2] == (n / 256) as u8 && d[3] == (n % 256) as u8);
        reveal_with_fuel(crate::servers::certs::big_endian, 3);
        let two = seq![(n / 256) as u8, (n % 256) as u8];
        assert(d.subrange(2, 4) =~= two);
        assert(two.drop_last() =~= seq![(n / 256) as u8]);
        assert(two.drop_last().drop_last() =~= Seq::empty());
        assert(d.subrange(4, 4 + n) =~= content);
        assert(d.skip(4 + n) =~= rest);
    }
}

proof fn lemma_pair_reads(n: int)
    requires
        0 <= n < 100,
    ensures
        number(pair(n), 10, 99) == Some(n),
        number(pair(n), 10, 9999) == Some(n),
        pair(n)[0] != '-',
        pair(n).len() == 2,
{
    let s = pair(n);
    reveal_with_fuel(value, 3);
    assert(s.drop_last() =~= seq![digit(n / 10)]);
    assert(s.drop_last().drop_last() =~= Seq::empty());
    assert(s[0] as u32 == 48 + n / 10);
    assert(s.last() as u32 == 48 + n % 10);
    assert(value(s, 10) == Some(n));
}

/// Twelve digits and a `Z` are a moment: two for the year, month, day, hour, minute and
/// second each. Years below 50 are of this century.
pub proof fn short_times_are_read(yy: int, m: int, d: int, hour: int, minute: int, second: int)
    requires
        0 <= yy < 100,
        0 <= hour < 24,
        0 <= minute < 60,
        0 <= second < 60,
        is_date(
            if yy < 50 {
                2000 + yy
            } else {
                1900 + yy
            },
            m,
            d,
        ),
    ensures
        ({
            let year = if yy < 50 {
                2000 + yy
            } else {
                1900 + yy
            };
            year >= 1970 ==> moment_of(
                0x17,
                pair(yy) + pair(m) + pair(d) + pair(hour) + pair(minute) + pair(second) + seq!['Z'],
            ) == Some(day_number(year, m, d) * 86400 + hour * 3600 + minute * 60 + second)
        }),
{
    let year = if yy < 50 {
        2000 + yy
    } else {
        1900 + yy
    };
    let t = pair(m) + pair(d) + pair(hour) + pair(minute) + pair(second);
    let s = pair(yy) + pair(m) + pair(d) + pair(hour) + pair(minute) + pair(second);
    reveal_strlit("Z");
    assert("Z"@ =~= seq!['Z']);
    let z = s + seq!['Z'];
    assert(z.subrange(z.len() - 1, z.len() as int) =~= "Z"@);
    assert(z.take(z.len() - 1) =~= s);
    lemma_pair_reads(yy);
    lemma_pair_reads(m);
    lemma_pair_reads(d);
    lemma_pair_reads(hour);
    lemma_pair_reads(minute);
    lemma_pair_reads(second);
    assert(s.len() == 12);
    assert(s.subrange(0, 2) =~= pair(yy));
    assert(s.skip(2) =~= t);
    assert(t.subrange(0, 2) =~= pair(m));
    assert(t.subrange(2, 4) =~= pair(d));
    assert(t.subrange(4, 6) =~= pair(hour));
    assert(t.subrange(6, 8) =~= pair(minute));
    assert(t.subrange(8, 10) =~= pair(second));
    if year >= 1970 {
        formula_counts_days(year, m, d);
    }
}

/// A certificate is valid from the one moment to the other, both of them counted; and
/// one without these moments never is.
pub proof fn certificates_are_valid_for_a_time(der: Seq<u8>, from: int, to: int, now: int)
    ensures
        validity(der) == Some((from, to)) ==> (valid_at(der, now) <==> from <= now && now <= to),
        validity(der) is None ==> !valid_at(der, now),
{
}

/// The certificate that is taken is the first for the name that is valid.
pub proof fn the_first_valid_certificate_is_taken(
    e: LiveEntryView,
    rest: Seq<LiveEntryView>,
    name: Seq<char>,
    now: int,
    full: Seq<char>,
    key: Seq<char>,
    pem: Seq<u8>,
    der: Seq<u8>,
)
    ensures
        e.name == name && e.fullchain == Some(full) && e.privkey == Some(key) && e.pem == Some(pem)
            && pem_certificate(pem) == Some(der) && valid_at(der, now) ==> live_from(
            seq![e] + rest,
            0,
            name,
            now,
        ) == Some((full, key)),
        e.name != name ==> live_from(seq![e] + rest, 0, name, now) == live_from(
            rest,
            0,
            name,
            now,
        ),
        e.name == name && e.fullchain == Some(full) && e.privkey == Some(key) && e.pem == Some(pem)
            && pem_certificate(pem) == Some(der) && !valid_at(der, now) ==> live_from(
            seq![e] + rest,
            0,
            name,
            now,
        ) == live_from(rest, 0, name, now),
        live_from(Seq::empty(), 0, name, now) is None,
{
    let all = seq![e] + rest;
    assert(all[0] == e);
    lemma_live_shift(e, rest, 0, name, now);
}

proof fn lemma_live_shift(
    e: LiveEntryView,
    rest: Seq<LiveEntryView>,
    i: int,
    name: Seq<char>,
    now: int,
)
    requires
        0 <= i,
    ensures
        live_from(seq![e] + rest, i + 1, name, now) == live_from(rest, i, name, now),
    decreases rest.len() - i,
{
    if i < rest.len() {
        assert((seq![e] + rest)[i + 1] == rest[i]);
        lemma_live_shift(e, rest, i + 1, name, now);
    }
}

/// A certificate that is there is taken; otherwise a public server asks for one; and
/// what cannot be had that way is made.
pub proof fn certificates_are_had(public: bool)
    ensures
        stage_after(Stage::Scan, true, public) == Stage::LoadLive,
        stage_after(Stage::Scan, false, true) == Stage::Obtain,
        stage_after(Stage::Scan, false, false) == Stage::Generate,
        stage_after(Stage::LoadLive, true, public) == Stage::Loaded,
        stage_after(Stage::LoadLive, false, true) == Stage::Obtain,
        stage_after(Stage::LoadLive, false, false) == Stage::Generate,
        stage_after(Stage::Obtain, true, public) == Stage::LoadObtained,
        stage_after(Stage::Obtain, false, public) == Stage::Generate,
        stage_after(Stage::LoadObtained, true, public) == Stage::Loaded,
        stage_after(Stage::LoadObtained, false, public) == Stage::Generate,
        stage_after(Stage::Generate, true, public) == Stage::LoadGenerated,
        stage_after(Stage::Generate, false, public) == Stage::Failed,
        stage_after(Stage::LoadGenerated, true, public) == Stage::Loaded,
        stage_after(Stage::LoadGenerated, false, public) == Stage::Failed,
{
}

// ---------------------------------------------------------------------------
// Asking for certificates
// ---------------------------------------------------------------------------

/// Each step of an order follows the one before it, once that succeeded, and with the
/// newest nonce; a step that fails ends the order.
pub proof fn orders_go_step_by_step(
    o: OrderView,
    status: u16,
    nonce: Seq<char>,
    body: Seq<u8>,
)
    ensures
        200 <= status <= 299 <==> succeeded(status),
        o.phase == Phase::Nonce && succeeded(status) && coordinates(o.key) is Some ==> after_reply(
            o,
            status,
            Some(nonce),
            body,
        ) == Ok::<OrderView, Seq<char>>(OrderView { phase: Phase::Account, nonce, ..o }),
        o.phase == Phase::Nonce ==> after_reply(o, status, None, body) is Err,
        o.phase == Phase::Account && succeeded(status) ==> after_reply(
            o,
            status,
            Some(nonce),
            body,
        ) == Ok::<OrderView, Seq<char>>(OrderView { phase: Phase::Order, nonce, ..o }),
        o.phase == Phase::Account && succeeded(status) ==> after_reply(o, status, None, body)
            == Ok::<OrderView, Seq<char>>(OrderView { phase: Phase::Order, ..o }),
        o.phase == Phase::Trigger && succeeded(status) ==> (after_reply(
            o,
            status,
            Some(nonce),
            body,
        ) matches Ok(n) && n.phase == Phase::Poll && n.nonce == nonce),
        o.phase == Phase::Download && succeeded(status) ==> after_reply(
            o,
            status,
            Some(nonce),
            body,
        ) == Ok::<OrderView, Seq<char>>(OrderView { phase: Phase::Issued, pem: body, ..o }),
        !succeeded(status) && (o.phase == Phase::Directory || o.phase == Phase::Nonce || o.phase
            == Phase::Account || o.phase == Phase::Order || o.phase == Phase::Authorization
            || o.phase == Phase::Trigger || o.phase == Phase::Finalize || o.phase
            == Phase::Download) ==> after_reply(o, status, Some(nonce), body) is Err,
        o.phase == Phase::Issued ==> after_reply(o, status, Some(nonce), body) == Ok::<
            OrderView,
            Seq<char>,
        >(o),
{
}

/// While a proof is looked at, an order waits: until it is valid, when the order goes
/// on; until it is invalid, or has been asked for often enough, when it ends.
pub proof fn orders_wait_for_their_proof(o: OrderView, j: Json, status: u16, body: Seq<u8>)
    requires
        o.phase == Phase::Poll,
        succeeded(status),
        json_document(body) == Ok::<Json, Seq<char>>(j),
    ensures
        state_of(j) == "valid"@ ==> (after_reply(o, status, None, body) matches Ok(n) && n.phase
            == Phase::Finalize),
        state_of(j) == "invalid"@ ==> after_reply(o, status, None, body) is Err,
        state_of(j) != "valid"@ && state_of(j) != "invalid"@ && o.polls > 1 ==> (after_reply(
            o,
            status,
            None,
            body,
        ) matches Ok(n) && n.phase == Phase::Poll && n.polls == o.polls - 1),
        state_of(j) != "valid"@ && o.polls <= 1 ==> after_reply(o, status, None, body) is Err,
{
    reveal_strlit("valid");
    reveal_strlit("invalid");
    assert("valid"@.len() == 5 && "invalid"@.len() == 7);
}

/// What is asked for in each step.
pub proof fn orders_ask_step_by_step(o: OrderView)
    ensures
        o.phase == Phase::Nonce ==> ask(o) == AskView::Head(o.new_nonce),
        o.phase == Phase::Account ==> (ask(o) matches AskView::Send(u) && u.url == o.new_account),
        o.phase == Phase::Order ==> (ask(o) matches AskView::Send(u) && u.url == o.new_order),
        o.phase == Phase::Authorization ==> (ask(o) matches AskView::Send(u) && u.url
            == o.authorization),
        o.phase == Phase::Trigger ==> (ask(o) matches AskView::Serve(token, proof_text, u) && token
            == o.token && proof_text == key_authorization(o.token, o.key) && u.url == o.challenge),
        o.phase == Phase::Poll ==> (ask(o) matches AskView::SendLater(u) && u.url
            == o.authorization),
        o.phase == Phase::Finalize ==> ask(o) == AskView::MakeRequest,
        o.phase == Phase::Download ==> (ask(o) matches AskView::Send(u) && u.url == o.certificate),
        o.phase == Phase::Issued ==> ask(o) == AskView::Done(o.pem),
{
}

/// The proof is the token and, behind a dot, what the key of the account comes to.
pub proof fn proofs_name_the_account(token: Seq<char>, key: Seq<u8>, x: Seq<char>, y: Seq<char>)
    requires
        coordinates(key) == Some((x, y)),
    ensures
        key_authorization(token, key) == token + seq!['.'] + thumbprint(x, y),
{
    reveal_strlit(".");
    assert("."@ =~= seq!['.']);
}

/// Who asks for the token gets the proof, and who asks for anything else does not.
pub proof fn proofs_are_given_to_those_who_ask(token: Seq<char>, version: Seq<char>, rest: Seq<char>, proof_text: Seq<char>, other: Seq<char>)
    requires
        is_word(token),
        is_word(version),
    ensures
        asks_for_token(
            "GET "@ + ("/.well-known/acme-challenge/"@ + token) + seq![' '] + version + seq!['\n']
                + rest,
            token,
        ),
        asks_for_token(other, token) ==> challenge_reply(other, token, proof_text)
            == "HTTP/1.1 200 OK\r\nContent-Type: text/plain\r\nContent-Length: "@ + decimal(
            encode_utf8(proof_text).len() as int,
        ) + "\r\nConnection: close\r\n\r\n"@ + proof_text,
        !asks_for_token(other, token) ==> challenge_reply(other, token, proof_text)
            == "HTTP/1.1 404 Not Found\r\nContent-Length: 0\r\nConnection: close\r\n\r\n"@,
        !asks_for_token(Seq::empty(), token),
{
    reveal_strlit("GET ");
    reveal_strlit("/.well-known/acme-challenge/");
    let path = "/.well-known/acme-challenge/"@ + token;
    let l = "GET "@ + path + seq![' '] + version;
    assert forall|i: int| 0 <= i < l.len() implies #[trigger] l[i] != '\n' && l[i] != '\r' by {
        if 32 <= i < 32 + token.len() {
            assert(l[i] == token[i - 32]);
            assert(!crate::text::is_space(token[i - 32]));
        } else if i > 32 + token.len() {
            assert(l[i] == version[i - 33 - token.len()]);
            assert(!crate::text::is_space(version[i - 33 - token.len()]));
        }
    }
    lemma_first_line(l, rest);
    let all = lines(l + seq!['\n'] + rest);
    assert(all[0] == l);
    assert(l.subrange(4, 4 + path.len() as int) =~= path);
    assert(stands_at(l, path, 4));
}

// ---------------------------------------------------------------------------
// New settings
// ---------------------------------------------------------------------------

/// What new settings change: where the server listens, what runs beside it, and where it
/// writes.
pub proof fn settings_change_what_they_name(old: ResolvedView, new: ResolvedView)
    ensures
        old.listen != new.listen ==> rebinds(old, new),
        old.port != new.port ==> rebinds(old, new),
        old.tls_enabled != new.tls_enabled ==> rebinds(old, new),
        new.tls_enabled && old.fqdn != new.fqdn ==> rebinds(old, new),
        old.listen == new.listen && old.port == new.port && old.tls_enabled == new.tls_enabled && (
        !new.tls_enabled || old.fqdn == new.fqdn) ==> !rebinds(old, new),
        old.proxy != new.proxy <==> restarts(old, new),
        !same_path(old.log_dir, new.log_dir) ==> reopens(old, new),
        old.logging_access_rotate != new.logging_access_rotate ==> reopens(old, new),
        old.logging_access_keep != new.logging_access_keep ==> reopens(old, new),
        old.logging_error_rotate != new.logging_error_rotate ==> reopens(old, new),
        old.logging_error_keep != new.logging_error_keep ==> reopens(old, new),
        same_path(old.log_dir, new.log_dir) && old.logging_access_rotate
            == new.logging_access_rotate && old.logging_access_keep == new.logging_access_keep
            && old.logging_error_rotate == new.logging_error_rotate && old.logging_error_keep
            == new.logging_error_keep ==> !reopens(old, new),
{
}

/// The directory that is served stays; and where the server cannot listen as it should,
/// it listens as before, while the rest of the settings change.
pub proof fn some_settings_stay(old: ResolvedView, new: ResolvedView, r: ReloadView, cause: Seq<char>)
    ensures
        !same_path(new.base_dir, old.base_dir) ==> kept_dir(old, new).base_dir == old.base_dir
            && begun(old, new).warnings.len() == 1,
        same_path(new.base_dir, old.base_dir) ==> kept_dir(old, new) == new && begun(
            old,
            new,
        ).warnings.len() == 0,
        kept_dir(old, new).port == new.port && kept_dir(old, new).listen == new.listen,
        kept_listener(old, new).listen == old.listen && kept_listener(old, new).port == old.port
            && kept_listener(old, new).tls_enabled == old.tls_enabled && kept_listener(
            old,
            new,
        ).fqdn == old.fqdn,
        kept_listener(old, new).debug == new.debug && kept_listener(old, new).mime_types
            == new.mime_types && kept_listener(old, new).proxy == new.proxy && kept_listener(
            old,
            new,
        ).script_handlers == new.script_handlers && kept_listener(old, new).log_dir
            == new.log_dir,
        unbound(old, r, cause).opts == kept_listener(old, r.opts),
        unbound(old, r, cause).warnings.len() == r.warnings.len() + 1,
        unbound(old, r, cause).rebound == r.rebound,
{
}

/// New settings are read, then listened by, then run by, then written by, and only then
/// taken; and those that cannot be read change nothing.
pub proof fn settings_change_step_by_step(
    old: ResolvedView,
    r: ReloadView,
    cause: Seq<char>,
    loaded: ResolvedView,
)
    ensures
        rebinds(old, kept_dir(old, loaded)) ==> reload_after(
            old,
            ReloadStepView::Load,
            ReloadEventView::Loaded(loaded),
        ) == ReloadStepView::Bind(begun(old, loaded)),
        reload_after(old, ReloadStepView::Load, ReloadEventView::Failed(cause)) is Refuse,
        restarts(old, r.opts) ==> reload_after(
            old,
            ReloadStepView::Bind(r),
            ReloadEventView::Finished,
        ) == ReloadStepView::StopChild(ReloadView { rebound: true, ..r }),
        reload_after(old, ReloadStepView::StopChild(r), ReloadEventView::Finished)
            == ReloadStepView::StartChild(r),
        reopens(old, r.opts) ==> reload_after(
            old,
            ReloadStepView::StartChild(r),
            ReloadEventView::Finished,
        ) == ReloadStepView::ReopenLogs(r),
        !reopens(old, r.opts) ==> reload_after(
            old,
            ReloadStepView::StartChild(r),
            ReloadEventView::Finished,
        ) == ReloadStepView::Swap(r),
        reload_after(old, ReloadStepView::ReopenLogs(r), ReloadEventView::Finished)
            == ReloadStepView::Swap(r),
        reload_after(old, ReloadStepView::Swap(r), ReloadEventView::Finished)
            == ReloadStepView::Report(r),
        reload_after(old, ReloadStepView::Report(r), ReloadEventView::Finished)
            == ReloadStepView::Done,
{
}


/// Fourteen digits and a `Z` are a moment too, with four for the year; and times of
/// another form, or without the `Z`, are none.
pub proof fn long_times_are_read(
    century: int,
    yy: int,
    m: int,
    d: int,
    hour: int,
    minute: int,
    second: int,
)
    requires
        19 <= century < 100,
        0 <= yy < 100,
        century * 100 + yy >= 1970,
        0 <= hour < 24,
        0 <= minute < 60,
        0 <= second < 60,
        is_date(century * 100 + yy, m, d),
    ensures
        moment_of(
            0x18,
            pair(century) + pair(yy) + pair(m) + pair(d) + pair(hour) + pair(minute) + pair(second)
                + seq!['Z'],
        ) == Some(
            day_number(century * 100 + yy, m, d) * 86400 + hour * 3600 + minute * 60 + second,
        ),
        moment_of(
            0x18,
            pair(century) + pair(yy) + pair(m) + pair(d) + pair(hour) + pair(minute) + pair(second),
        ) is None,
{
    let year = century * 100 + yy;
    let t = pair(m) + pair(d) + pair(hour) + pair(minute) + pair(second);
    let s = pair(century) + pair(yy) + pair(m) + pair(d) + pair(hour) + pair(minute) + pair(second);
    reveal_strlit("Z");
    assert("Z"@ =~= seq!['Z']);
    let z = s + seq!['Z'];
    assert(z.subrange(z.len() - 1, z.len() as int) =~= "Z"@);
    assert(z.take(z.len() - 1) =~= s);
    lemma_pair_reads(m);
    lemma_pair_reads(d);
    lemma_pair_reads(hour);
    lemma_pair_reads(minute);
    lemma_pair_reads(second);
    lemma_four_read(century, yy);
    assert(s.len() == 14);
    assert(s.subrange(0, 4) =~= pair(century) + pair(yy));
    assert(s.skip(4) =~= t);
    assert(t.subrange(0, 2) =~= pair(m));
    assert(t.subrange(2, 4) =~= pair(d));
    assert(t.subrange(4, 6) =~= pair(hour));
    assert(t.subrange(6, 8) =~= pair(minute));
    assert(t.subrange(8, 10) =~= pair(second));
    formula_counts_days(year, m, d);
    assert(s.last() == digit(second % 10));
    assert(s.last() != 'Z');
    assert(strip_suffix(s, "Z"@) is None) by {
        if stands_at(s, "Z"@, s.len() - 1) {
            assert(s.subrange(s.len() - 1, s.len() as int)[0] == s.last());
        }
    }
}

proof fn lemma_four_read(a: int, b: int)
    requires
        0 <= a < 100,
        0 <= b < 100,
    ensures
        number(pair(a) + pair(b), 10, 9999) == Some(a * 100 + b),
        (pair(a) + pair(b))[0] != '-',
{
    let s = pair(a) + pair(b);
    assert(s =~= seq![digit(a / 10), digit(a % 10), digit(b / 10), digit(b % 10)]);
    reveal_with_fuel(value, 5);
    let t = s.drop_last();
    let u = t.drop_last();
    let w = u.drop_last();
    assert(w.drop_last() =~= Seq::empty());
    assert(s[0] as u32 == 48 + a / 10);
    assert(w.last() as u32 == 48 + a / 10);
    assert(u.last() as u32 == 48 + a % 10);
    assert(t.last() as u32 == 48 + b / 10);
    assert(s.last() as u32 == 48 + b % 10);
    assert(value(w, 10) == Some(a / 10));
    assert(value(u, 10) == Some(a));
    assert(value(t, 10) == Some(a * 10 + b / 10));
    assert(value(s, 10) == Some(a * 100 + b));
}

} // verus!
