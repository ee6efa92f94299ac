//! Who may see what.

use vstd::arithmetic::div_mod::lemma_fundamental_div_mod_converse;
use vstd::arithmetic::power2::{lemma_pow2_pos, pow2};
use vstd::prelude::*;

use crate::digits::{decimal, digit, hex, written_reads_back};
use crate::laws::directives::lemma_first_line;
use crate::laws::wording::{
    is_tight, is_word, lemma_around, lemma_decimal_digits, lemma_lacking, lemma_not_prefixed,
    lemma_prefixed, lemma_tight,
};
use crate::net::{address, in_network, is_public, octet, IpAddr};
use crate::outside::{base64_bytes, base64_text, bcrypt_answers, sha1_digest};
use crate::servers::cascade::{
    client_allowed, document, group_of, layered, requirement_met, user_authorized,
};
use crate::servers::htaccess::{AccessRule, Order, RequireView, RulesView};
use crate::servers::passwords::{
    apr1, basic_auth, hash_answers, password_entry, password_ok, stored_hash, MAGIC,
};
use crate::text::{is_space, lemma_split_joined, lines, split, starts_with, trim, words};
use vstd::utf8::{decode_utf8, encode_utf8, valid_utf8};

verus! {

// ---------------------------------------------------------------------------
// Addresses
// ---------------------------------------------------------------------------

/// Four numbers with dots between them.
pub open spec fn dotted(a: u8, b: u8, c: u8, d: u8) -> Seq<char> {
    decimal(a as int) + seq!['.'] + (decimal(b as int) + seq!['.'] + (decimal(c as int) + seq!['.']
        + decimal(d as int)))
}

proof fn lemma_octet(n: u8)
    ensures
        octet(decimal(n as int)) == Some(n as int),
        !decimal(n as int).contains('.'),
        split(decimal(n as int), '.') == seq![decimal(n as int)],
{
    let d = decimal(n as int);
    reveal_with_fuel(crate::digits::written, 4);
    written_reads_back(n as int, 10);
    lemma_decimal_digits(n as int);
    assert(!d.contains('.')) by {
        if d.contains('.') {
            let i = choose|i: int| 0 <= i < d.len() && d[i] == '.';
            assert('0' <= d[i] <= '9');
        }
    }
    lemma_lacking(d, '.');
    assert(1 <= d.len() <= 3);
    assert(d.len() > 1 ==> d[0] != '0');
}

/// Four numbers with dots between them are the address whose bytes they are.
pub proof fn dotted_numbers_are_addresses(a: u8, b: u8, c: u8, d: u8)
    ensures
        address(dotted(a, b, c, d)) == Some(
            IpAddr::V4((a * 0x100_0000 + b * 0x1_0000 + c * 0x100 + d) as u32),
        ),
{
    lemma_octet(a);
    lemma_octet(b);
    lemma_octet(c);
    lemma_octet(d);
    let (p, q, r, s) = (decimal(a as int), decimal(b as int), decimal(c as int), decimal(d as int));
    lemma_split_joined(r, '.', s);
    lemma_split_joined(q, '.', r + seq!['.'] + s);
    lemma_split_joined(p, '.', q + seq!['.'] + (r + seq!['.'] + s));
    assert(split(dotted(a, b, c, d), '.') =~= seq![p, q, r, s]);
}

/// A network holds exactly the addresses that start as it does.
pub proof fn networks_hold_what_starts_alike(start: int, x: int, other: int, y: int, bits: u8)
    requires
        0 < bits < 32,
        0 <= x < pow2((32 - bits) as nat),
        0 <= y < pow2((32 - bits) as nat),
        0 <= start,
        0 <= other,
        start * pow2((32 - bits) as nat) + x <= u32::MAX,
        other * pow2((32 - bits) as nat) + y <= u32::MAX,
        0 <= start * pow2((32 - bits) as nat) + x,
        0 <= other * pow2((32 - bits) as nat) + y,
    ensures
        in_network(
            IpAddr::V4((start * pow2((32 - bits) as nat) + x) as u32),
            bits,
            IpAddr::V4((other * pow2((32 - bits) as nat) + y) as u32),
        ) <==> start == other,
{
    let k = pow2((32 - bits) as nat) as int;
    lemma_pow2_pos((32 - bits) as nat);
    lemma_fundamental_div_mod_converse(start * k + x, k, start, x);
    lemma_fundamental_div_mod_converse(other * k + y, k, other, y);
}

/// The same of the longer addresses.
pub proof fn long_networks_hold_what_starts_alike(start: int, x: int, other: int, y: int, bits: u8)
    requires
        0 < bits < 128,
        0 <= x < pow2((128 - bits) as nat),
        0 <= y < pow2((128 - bits) as nat),
        0 <= start,
        0 <= other,
        0 <= start * pow2((128 - bits) as nat) + x <= u128::MAX,
        0 <= other * pow2((128 - bits) as nat) + y <= u128::MAX,
    ensures
        in_network(
            IpAddr::V6((start * pow2((128 - bits) as nat) + x) as u128),
            bits,
            IpAddr::V6((other * pow2((128 - bits) as nat) + y) as u128),
        ) <==> start == other,
{
    let k = pow2((128 - bits) as nat) as int;
    lemma_pow2_pos((128 - bits) as nat);
    lemma_fundamental_div_mod_converse(start * k + x, k, start, x);
    lemma_fundamental_div_mod_converse(other * k + y, k, other, y);
}

/// A network without a start holds every address of its kind, one that is all start
/// only itself, and none holds an address of the other kind.
pub proof fn networks_of_all_or_one(a: u32, b: u32, c: u128, d: u128, bits: u8)
    ensures
        in_network(IpAddr::V4(a), 0, IpAddr::V4(b)),
        in_network(IpAddr::V6(c), 0, IpAddr::V6(d)),
        bits >= 32 ==> (in_network(IpAddr::V4(a), bits, IpAddr::V4(b)) <==> a == b),
        bits >= 128 ==> (in_network(IpAddr::V6(c), bits, IpAddr::V6(d)) <==> c == d),
        !in_network(IpAddr::V4(a), bits, IpAddr::V6(c)),
        !in_network(IpAddr::V6(c), bits, IpAddr::V4(a)),
{
}

/// The addresses of a machine's own networks are not public.
pub proof fn private_addresses_are_not_public(b: u8, c: u8, d: u8)
    ensures
        !is_public(IpAddr::V4((127 * 0x100_0000 + b * 0x1_0000 + c * 0x100 + d) as u32)),
        !is_public(IpAddr::V4((10 * 0x100_0000 + b * 0x1_0000 + c * 0x100 + d) as u32)),
        !is_public(IpAddr::V4((192 * 0x100_0000 + 168 * 0x1_0000 + c * 0x100 + d) as u32)),
        !is_public(IpAddr::V4((169 * 0x100_0000 + 254 * 0x1_0000 + c * 0x100 + d) as u32)),
        is_public(IpAddr::V4((172 * 0x100_0000 + b * 0x1_0000 + c * 0x100 + d) as u32)) <==> !(16
            <= b <= 31),
        is_public(IpAddr::V4((8 * 0x100_0000 + b * 0x1_0000 + c * 0x100 + d) as u32)),
        is_public(IpAddr::V4((11 * 0x100_0000 + b * 0x1_0000 + c * 0x100 + d) as u32)),
        is_public(IpAddr::V4((192 * 0x100_0000 + b * 0x1_0000 + c * 0x100 + d) as u32)) <==> b
            != 168,
        is_public(IpAddr::V4((169 * 0x100_0000 + b * 0x1_0000 + c * 0x100 + d) as u32)) <==> b
            != 254,
        !is_public(IpAddr::V6(1)),
{
}

// ---------------------------------------------------------------------------
// Clients
// ---------------------------------------------------------------------------

/// Whether a rule is about a client.
pub open spec fn is_about(rule: AccessRule, ip: Option<IpAddr>) -> bool {
    ||| rule is All
    ||| rule is Ip && ip is Some && rule->Ip_0 == ip->0
    ||| rule is Cidr && ip is Some && in_network(rule->Cidr_0, rule->Cidr_1, ip->0)
}

/// Whether some rule is about a client.
pub open spec fn some_about(list: Seq<AccessRule>, ip: Option<IpAddr>) -> bool {
    exists|i: int| 0 <= i < list.len() && is_about(#[trigger] list[i], ip)
}

proof fn lemma_listed(list: Seq<AccessRule>, ip: Option<IpAddr>)
    ensures
        crate::servers::cascade::listed(list, ip) == some_about(list, ip),
{
    assert forall|i: int| 0 <= i < list.len() implies is_about(#[trigger] list[i], ip)
        == crate::servers::cascade::names_client(list[i], ip) by {}
    if some_about(list, ip) {
        let i = choose|i: int| 0 <= i < list.len() && is_about(#[trigger] list[i], ip);
        assert(crate::servers::cascade::names_client(list[i], ip));
    }
    if crate::servers::cascade::listed(list, ip) {
        let i = choose|i: int|
            0 <= i < list.len() && crate::servers::cascade::names_client(#[trigger] list[i], ip);
        assert(is_about(list[i], ip));
    }
}

/// Without rules every client is let in. With `Deny,Allow` a client is let in unless a
/// rule keeps it out and none lets it in. Otherwise a client is let in that no rule
/// keeps out, and that some rule lets in, if there are rules that do so at all.
pub proof fn clients_are_let_in_by_the_rules(r: RulesView, remote: Seq<char>)
    ensures
        r.order is None && r.allow.len() == 0 && r.deny.len() == 0 ==> client_allowed(r, remote),
        r.order == Some(Order::DenyAllow) && some_about(r.allow, address(remote))
            ==> client_allowed(r, remote),
        r.order == Some(Order::DenyAllow) && !some_about(r.deny, address(remote))
            ==> client_allowed(r, remote),
        r.order == Some(Order::DenyAllow) && some_about(r.deny, address(remote)) && !some_about(
            r.allow,
            address(remote),
        ) ==> !client_allowed(r, remote),
        r.order != Some(Order::DenyAllow) && some_about(r.deny, address(remote))
            ==> !client_allowed(r, remote),
        r.order != Some(Order::DenyAllow) && r.allow.len() > 0 && !some_about(
            r.allow,
            address(remote),
        ) ==> !client_allowed(r, remote),
        r.order != Some(Order::DenyAllow) && some_about(r.allow, address(remote)) && !some_about(
            r.deny,
            address(remote),
        ) ==> client_allowed(r, remote),
        r.order != Some(Order::DenyAllow) && r.allow.len() == 0 && !some_about(
            r.deny,
            address(remote),
        ) ==> client_allowed(r, remote),
{
    lemma_listed(r.allow, address(remote));
    lemma_listed(r.deny, address(remote));
}

// ---------------------------------------------------------------------------
// Users
// ---------------------------------------------------------------------------

/// A request names its user and the password in one field, with a colon between them.
pub proof fn credentials_are_read(
    token: Seq<char>,
    bytes: Seq<u8>,
    user: Seq<char>,
    password: Seq<char>,
)
    requires
        is_tight(token),
        base64_bytes(token) == Some(bytes),
        valid_utf8(bytes),
        decode_utf8(bytes) == user + seq![':'] + password,
        !user.contains(':'),
    ensures
        basic_auth("Basic "@ + token) == Some((user, password)),
{
    lemma_prefixed("Basic "@, token);
    lemma_tight(token);
    lemma_around(user, ':', password);
}

/// Another kind of credentials names nobody, nor do bytes that are no text.
pub proof fn other_credentials_name_nobody(header: Seq<char>, token: Seq<char>)
    requires
        is_tight(token),
    ensures
        !starts_with(header, "Basic "@) ==> basic_auth(header) is None,
        base64_bytes(token) is None ==> basic_auth("Basic "@ + token) is None,
        base64_bytes(token) is Some && !valid_utf8(base64_bytes(token)->0) ==> basic_auth(
            "Basic "@ + token,
        ) is None,
{
    lemma_prefixed("Basic "@, token);
    lemma_tight(token);
}

/// A line of a password file.
pub open spec fn password_line(user: Seq<char>, hash: Seq<char>) -> Seq<char> {
    user + seq![':'] + hash
}

/// Whether a text can be the name of a user in a password file.
pub open spec fn is_user(user: Seq<char>) -> bool {
    is_word(user) && user[0] != '#' && !user.contains(':')
}

proof fn lemma_password_line(user: Seq<char>, hash: Seq<char>)
    requires
        is_user(user),
        is_word(hash),
    ensures
        password_entry(password_line(user, hash)) == Some((user, hash)),
        trim(hash) == hash,
        password_line(user, hash).len() > 0,
        !password_line(user, hash).contains('\n') && !password_line(user, hash).contains('\r'),
{
    let l = password_line(user, hash);
    assert(!is_space(user[0]));
    assert(!is_space(hash[0]) && !is_space(hash[hash.len() - 1]));
    assert(l[0] == user[0]);
    assert(l.last() == hash.last());
    lemma_tight(l);
    lemma_tight(hash);
    reveal_strlit("#");
    lemma_not_prefixed("#"@, l);
    lemma_around(user, ':', hash);
    assert forall|i: int| 0 <= i < l.len() implies #[trigger] l[i] != '\n' && l[i] != '\r' by {
        if i < user.len() {
            assert(l[i] == user[i]);
            assert(!is_space(user[i]));
        } else if i > user.len() {
            assert(l[i] == hash[i - user.len() - 1]);
            assert(!is_space(hash[i - user.len() - 1]));
        }
    }
}

/// The line of a user holds the hash that its password has to answer. Lines of other
/// users do not count, nor does a second line.
pub proof fn the_line_of_the_user_counts(
    user: Seq<char>,
    hash: Seq<char>,
    rest: Seq<char>,
    password: Seq<char>,
    other: Seq<char>,
)
    requires
        is_user(user),
        is_word(hash),
        other != user,
    ensures
        password_ok(Some(password_line(user, hash) + seq!['\n'] + rest), user, password)
            == hash_answers(hash, password),
        password_ok(Some(password_line(user, hash) + seq!['\n'] + rest), other, password)
            == password_ok(Some(rest), other, password),
        password_ok(Some(password_line(user, hash)), user, password) == hash_answers(
            hash,
            password,
        ),
        !password_ok(Some(password_line(user, hash)), other, password),
        !password_ok(None, user, password),
{
    lemma_password_line(user, hash);
    let l = password_line(user, hash);
    lemma_first_line(l, rest);
    let all = seq![l] + lines(rest);
    assert(all[0] == l);
    assert(all.skip(1) =~= lines(rest));
    let one = seq![l];
    assert(one.skip(1) =~= Seq::empty());
    assert(stored_hash(one, other) == stored_hash(one.skip(1), other));
}

/// A password answers the hash that was made of it, in each of the forms that a file
/// can hold; and a password that stands there as it is answers nothing.
pub proof fn passwords_answer_their_hashes(password: Seq<char>, salt: Seq<char>, hash: Seq<char>)
    ensures
        hash_answers("{SHA}"@ + base64_text(sha1_digest(encode_utf8(password))), password),
        !salt.contains('$') ==> hash_answers(apr1(password, salt), password),
        starts_with(hash, "$2y$"@) || starts_with(hash, "$2a$"@) || starts_with(hash, "$2b$"@) ==> (
        hash_answers(hash, password) <==> bcrypt_answers(password, hash) == Some(true)),
        hash.len() > 0 && hash[0] != '$' && hash[0] != '{' ==> !hash_answers(hash, password),
{
    reveal_strlit("{SHA}");
    reveal_strlit("$apr1$");
    reveal_strlit("$2y$");
    reveal_strlit("$2a$");
    reveal_strlit("$2b$");
    let b = base64_text(sha1_digest(encode_utf8(password)));
    let sha = "{SHA}"@ + b;
    assert(sha[0] == '{');
    lemma_not_prefixed("$2y$"@, sha);
    lemma_not_prefixed("$2a$"@, sha);
    lemma_not_prefixed("$2b$"@, sha);
    lemma_not_prefixed(MAGIC@, sha);
    lemma_prefixed("{SHA}"@, b);
    assert(sha.skip("{SHA}"@.len() as int) =~= b);
    if !salt.contains('$') {
        let a = apr1(password, salt);
        reveal_strlit("$");
        let tail = crate::servers::passwords::digest_text(
            crate::servers::passwords::after_rounds(encode_utf8(password), encode_utf8(salt), 1000),
        );
        assert("$"@ =~= seq!['$']);
        let rest = salt + seq!['$'] + tail;
        assert(a =~= MAGIC@ + rest);
        lemma_prefixed(MAGIC@, rest);
        assert(a.skip(MAGIC@.len() as int) =~= rest);
        lemma_around(salt, '$', tail);
        assert(a[1] == 'a');
        assert(!crate::servers::passwords::is_bcrypt(a)) by {
            if starts_with(a, "$2y$"@) {
                assert(a.subrange(0, 4)[1] == a[1]);
            }
            if starts_with(a, "$2a$"@) {
                assert(a.subrange(0, 4)[1] == a[1]);
            }
            if starts_with(a, "$2b$"@) {
                assert(a.subrange(0, 4)[1] == a[1]);
            }
        }
    }
    if hash.len() > 0 && hash[0] != '$' && hash[0] != '{' {
        lemma_not_prefixed("$2y$"@, hash);
        lemma_not_prefixed("$2a$"@, hash);
        lemma_not_prefixed("$2b$"@, hash);
        lemma_not_prefixed(MAGIC@, hash);
        lemma_not_prefixed("{SHA}"@, hash);
    }
}

/// A line of a group file names the group and, after a colon, its members. The first
/// line of a group counts.
pub proof fn groups_have_their_members(
    name: Seq<char>,
    list: Seq<char>,
    rest: Seq<char>,
    other: Seq<char>,
)
    requires
        is_word(name),
        !name.contains(':'),
        is_tight(list),
        !list.contains('\n') && !list.contains('\r'),
        other != name,
    ensures
        group_of(Some(name + seq![':'] + (seq![' '] + list) + seq!['\n'] + rest), name) == words(
            list,
        ) || list.len() == 0,
        list.len() > 0 ==> group_of(
            Some(name + seq![':'] + (seq![' '] + list) + seq!['\n'] + rest),
            other,
        ) == group_of(Some(rest), other),
        group_of(None, name) == Seq::<Seq<char>>::empty(),
{
    let l = name + seq![':'] + (seq![' '] + list);
    assert(!is_space(name[0]) && !is_space(name[name.len() - 1]));
    if list.len() > 0 {
        assert(l[0] == name[0]);
        assert(l.last() == list.last());
        lemma_tight(l);
        lemma_tight(name);
        lemma_around(name, ':', seq![' '] + list);
        crate::laws::wording::words_are_parted_by_space(name, ' ', list);
        assert forall|i: int| 0 <= i < l.len() implies #[trigger] l[i] != '\n' && l[i] != '\r' by {
            if i < name.len() {
                assert(l[i] == name[i]);
                assert(!is_space(name[i]));
            } else if i > name.len() + 1 {
                assert(l[i] == list[i - name.len() - 2]);
                assert(list.contains(list[i - name.len() - 2]));
            }
        }
        lemma_first_line(l, rest);
        let all = seq![l] + lines(rest);
        assert(all[0] == l);
        assert(all.skip(1) =~= lines(rest));
    }
}

/// Any user with a password will do, the users named, or the members of the groups
/// named: it is enough to meet one of the demands.
pub proof fn one_demand_is_enough(
    r: RulesView,
    user: Seq<char>,
    text: Option<Seq<char>>,
    i: int,
    names: Seq<Seq<char>>,
    k: int,
)
    requires
        0 <= i < r.requires.len(),
    ensures
        r.requires[i] == RequireView::ValidUser ==> user_authorized(r, user, text),
        r.requires[i] == RequireView::User(names) && names.contains(user) ==> user_authorized(
            r,
            user,
            text,
        ),
        r.requires[i] == RequireView::Group(names) && r.auth_group_file is Some && 0 <= k
            < names.len() && group_of(text, names[k]).contains(user) ==> user_authorized(
            r,
            user,
            text,
        ),
        r.requires == seq![RequireView::User(names)] && !names.contains(user) ==> !user_authorized(
            r,
            user,
            text,
        ),
        r.requires == seq![RequireView::Group(names)] && r.auth_group_file is None
            ==> !user_authorized(r, user, text),
{
    let met = |x: RequireView| requirement_met(x, r.auth_group_file is Some, user, text);
    assert(met(r.requires[i]) == requirement_met(
        r.requires[i],
        r.auth_group_file is Some,
        user,
        text,
    ));
    if 0 <= k < names.len() && group_of(text, names[k]).contains(user) {
        assert(crate::servers::cascade::in_some_group(names, user, text));
    }
}

// ---------------------------------------------------------------------------
// Directories above and below
// ---------------------------------------------------------------------------

/// What the rules of a directory say takes the place of what those above it say; lists
/// go on; and rewriting that is on above stays on.
pub proof fn rules_below_count_more(above: RulesView, below: RulesView)
    ensures
        below.auth_type is Some ==> layered(above, below).auth_type == below.auth_type,
        below.auth_type is None ==> layered(above, below).auth_type == above.auth_type,
        below.auth_name is Some ==> layered(above, below).auth_name == below.auth_name,
        below.auth_name is None ==> layered(above, below).auth_name == above.auth_name,
        below.auth_user_file is Some ==> layered(above, below).auth_user_file
            == below.auth_user_file,
        below.auth_user_file is None ==> layered(above, below).auth_user_file
            == above.auth_user_file,
        below.auth_group_file is Some ==> layered(above, below).auth_group_file
            == below.auth_group_file,
        below.auth_group_file is None ==> layered(above, below).auth_group_file
            == above.auth_group_file,
        below.order is Some ==> layered(above, below).order == below.order,
        below.order is None ==> layered(above, below).order == above.order,
        below.directory_index is Some ==> layered(above, below).directory_index
            == below.directory_index,
        below.directory_index is None ==> layered(above, below).directory_index
            == above.directory_index,
        below.indexes is Some ==> layered(above, below).indexes == below.indexes,
        below.indexes is None ==> layered(above, below).indexes == above.indexes,
        below.follow_symlinks is Some ==> layered(above, below).follow_symlinks
            == below.follow_symlinks,
        below.follow_symlinks is None ==> layered(above, below).follow_symlinks
            == above.follow_symlinks,
        layered(above, below).rewrite_engine <==> above.rewrite_engine || below.rewrite_engine,
        layered(above, below).requires == above.requires + below.requires,
        layered(above, below).allow == above.allow + below.allow,
        layered(above, below).deny == above.deny + below.deny,
        layered(above, below).error_documents == above.error_documents + below.error_documents,
        layered(above, below).rewrite_rules == above.rewrite_rules + below.rewrite_rules,
        layered(above, below).redirects == above.redirects + below.redirects,
{
}

/// The document for a status is the one that was set last.
pub proof fn the_last_document_counts(
    before: Seq<(u16, Seq<char>)>,
    status: u16,
    target: Seq<char>,
    after: Seq<(u16, Seq<char>)>,
)
    requires
        forall|i: int| 0 <= i < after.len() ==> (#[trigger] after[i]).0 != status,
    ensures
        document(before.push((status, target)) + after, status) == Some(target),
        document(after, status) is None,
    decreases after.len(),
{
    let list = before.push((status, target)) + after;
    if after.len() > 0 {
        let d = after.drop_last();
        assert(list.drop_last() =~= before.push((status, target)) + d);
        assert(list.last() == after[after.len() - 1]);
        the_last_document_counts(before, status, target, d);
    } else {
        assert(list =~= before.push((status, target)));
    }
}


// ---------------------------------------------------------------------------
// Long addresses
// ---------------------------------------------------------------------------

/// Groups in hexadecimal with colons between them.
pub open spec fn coloned(g: Seq<u16>) -> Seq<char>
    decreases g.len(),
{
    if g.len() == 0 {
        Seq::empty()
    } else if g.len() == 1 {
        hex(g[0] as int)
    } else {
        coloned(g.drop_last()) + seq![':'] + hex(g.last() as int)
    }
}

/// The value of groups of sixteen bits, the first the highest.
pub open spec fn group_value(g: Seq<u16>) -> int
    decreases g.len(),
{
    if g.len() == 0 {
        0
    } else {
        group_value(g.drop_last()) * 0x1_0000 + g.last()
    }
}

proof fn lemma_hex_group(n: u16)
    ensures
        crate::net::group(hex(n as int)) == Some(n as int),
        !hex(n as int).contains(':'),
        !hex(n as int).contains('.'),
        split(hex(n as int), ':') == seq![hex(n as int)],
        hex(n as int).len() > 0,
{
    let h = hex(n as int);
    written_reads_back(n as int, 16);
    reveal_with_fuel(crate::digits::written, 5);
    assert(1 <= h.len() <= 4);
    assert forall|i: int| 0 <= i < h.len() implies #[trigger] h[i] != ':' && h[i] != '.' by {
        lemma_written_digit(n as int, i);
    }
    lemma_lacking(h, ':');
}

proof fn lemma_written_digit(n: int, i: int)
    requires
        0 <= n,
        0 <= i < hex(n).len(),
    ensures
        48 <= hex(n)[i] as u32 <= 57 || 97 <= hex(n)[i] as u32 <= 102,
    decreases n,
{
    if n >= 16 {
        assert(hex(n) == hex(n / 16).push(digit(n % 16)));
        if i < hex(n / 16).len() {
            lemma_written_digit(n / 16, i);
        }
    }
}

proof fn lemma_coloned(g: Seq<u16>)
    requires
        g.len() > 0,
    ensures
        split(coloned(g), ':').len() == g.len(),
        forall|i: int| 0 <= i < g.len() ==> #[trigger] split(coloned(g), ':')[i] == hex(
            g[i] as int,
        ),
        crate::net::groups(split(coloned(g), ':')) == Some(g.map_values(|x: u16| x as int)),
        crate::net::bits_of(g.map_values(|x: u16| x as int)) == group_value(g),
        !coloned(g).contains('.'),
        coloned(g).len() > 0,
    decreases g.len(),
{
    let n = g.len() as int;
    let w = g[n - 1];
    lemma_hex_group(w);
    let m = g.map_values(|x: u16| x as int);
    let none = Seq::<int>::empty();
    if n == 1 {
        let s = split(coloned(g), ':');
        assert(s =~= seq![hex(w as int)]);
        assert(s.drop_last() =~= Seq::empty());
        reveal_with_fuel(crate::net::groups, 2);
        assert(none.push(w as int) =~= m);
        reveal_with_fuel(crate::net::bits_of, 2);
        reveal_with_fuel(group_value, 2);
        assert(m.drop_last() =~= none);
        assert(g.drop_last() =~= Seq::<u16>::empty());
    } else {
        let d = g.drop_last();
        lemma_coloned(d);
        lemma_split_joined(coloned(d), ':', hex(w as int));
        let s = split(coloned(g), ':');
        let t = split(coloned(d), ':');
        assert(s =~= t.push(hex(w as int)));
        assert(s.drop_last() =~= t);
        assert forall|i: int| 0 <= i < n implies #[trigger] s[i] == hex(g[i] as int) by {
            if i < n - 1 {
                assert(s[i] == t[i]);
                assert(d[i] == g[i]);
            }
        }
        let k = d.map_values(|x: u16| x as int);
        assert(k.push(w as int) =~= m);
        assert(m.drop_last() =~= k);
        assert(!coloned(g).contains('.')) by {
            if coloned(g).contains('.') {
                let c = coloned(g);
                let a = coloned(d);
                let i = choose|i: int| 0 <= i < c.len() && c[i] == '.';
                if i < a.len() {
                    assert(a[i] == '.');
                } else if i > a.len() {
                    assert(hex(w as int)[i - a.len() - 1] == '.');
                }
            }
        }
    }
}

/// Eight groups in hexadecimal with colons between them are the long address whose bits
/// they are.
pub proof fn eight_groups_are_an_address(g: Seq<u16>)
    requires
        g.len() == 8,
    ensures
        address(coloned(g)) == Some(IpAddr::V6(group_value(g) as u128)),
{
    let s = coloned(g);
    lemma_coloned(g);
    let p = split(s, ':');
    lemma_lacking(s, '.');
    assert(crate::net::ipv4(s) is None);
    assert(p.last() == hex(g[7] as int));
    lemma_hex_group(g[7]);
    lemma_lacking(p.last(), '.');
    assert(crate::net::ipv4(p.last()) is None);
    reveal_strlit("::");
    assert("::"@ =~= seq![':', ':']);
    crate::text::lemma_find(s, "::"@, 0);
    if let Some(i) = crate::text::find(s, "::"@, 0) {
        let x = s.take(i);
        let y = s.skip(i + 2);
        let none = Seq::<char>::empty();
        let w = s.subrange(i, i + 2);
        assert(w == "::"@);
        assert(s[i] == w[0] && s[i + 1] == w[1]);
        assert(s =~= x + seq![':'] + (none + seq![':'] + y));
        lemma_split_joined(x, ':', none + seq![':'] + y);
        lemma_split_joined(none, ':', y);
        lemma_lacking(none, ':');
        let k = split(x, ':').len() as int;
        assert(p[k] == none) by {
            assert(p == split(x, ':') + (seq![none] + split(y, ':')));
        }
        assert(p[k] == hex(g[k] as int));
        lemma_hex_group(g[k]);
    }
}


/// Numbers that are too large, or that start with a zero, are no parts of an address; nor
/// are three numbers one.
pub proof fn odd_numbers_are_no_addresses(n: int, a: u8, b: u8, c: u8)
    requires
        256 <= n <= 999,
    ensures
        octet(decimal(n)) is None,
        octet(seq!['0'] + decimal(a as int)) is None,
        octet(Seq::empty()) is None,
        crate::net::ipv4(
            decimal(a as int) + seq!['.'] + (decimal(b as int) + seq!['.'] + decimal(c as int)),
        ) is None,
{
    written_reads_back(n, 10);
    lemma_octet(a);
    lemma_octet(b);
    lemma_octet(c);
    let z = seq!['0'] + decimal(a as int);
    lemma_decimal_digits(a as int);
    assert(z[0] == '0' && z.len() > 1);
    let (p, q, r) = (decimal(a as int), decimal(b as int), decimal(c as int));
    lemma_split_joined(q, '.', r);
    lemma_split_joined(p, '.', q + seq!['.'] + r);
    assert(split(p + seq!['.'] + (q + seq!['.'] + r), '.') =~= seq![p, q, r]);
}

/// Two colons stand for as many zeros as are missing.
pub proof fn two_colons_stand_for_zeros(n: u16)
    ensures
        address(seq![':', ':'] + hex(n as int)) == Some(IpAddr::V6(n as u128)),
        address(seq![':', ':']) == Some(IpAddr::V6(0)),
{
    reveal_strlit("::");
    assert("::"@ =~= seq![':', ':']);
    let h = hex(n as int);
    let s = seq![':', ':'] + h;
    let t = seq![':', ':'];
    let none = Seq::<char>::empty();
    lemma_hex_group(n);
    assert(s.subrange(0, 2) =~= "::"@);
    assert(t.subrange(0, 2) =~= "::"@);
    assert(crate::text::find(s, "::"@, 0) == Some(0int));
    assert(crate::text::find(t, "::"@, 0) == Some(0int));
    assert(s.take(0) =~= none && t.take(0) =~= none);
    assert(s.skip(2) =~= h && t.skip(2) =~= none);
    assert(!s.contains('.')) by {
        if s.contains('.') {
            let i = choose|i: int| 0 <= i < s.len() && s[i] == '.';
            assert(h[i - 2] == '.');
        }
    }
    lemma_lacking(s, '.');
    assert(!t.contains('.'));
    lemma_lacking(t, '.');
    assert(crate::net::ipv4(s) is None);
    assert(crate::net::ipv4(t) is None);
    lemma_lacking(h, '.');
    assert(crate::net::ipv4(h) is None);
    let one = seq![h];
    reveal_with_fuel(crate::net::groups, 2);
    assert(one.drop_last() =~= Seq::empty());
    let g = Seq::<int>::empty().push(n as int);
    assert(crate::net::side(h, true) == Some(g));
    let zeros = Seq::new(7, |j: int| 0int);
    let all = Seq::<int>::empty() + zeros + g;
    assert(crate::net::ipv6_groups(s) == Some(all)) by {
        assert(Seq::<int>::empty() + Seq::new((8 - 0 - 1) as nat, |j: int| 0int) + g =~= all);
    }
    lemma_zero_bits(zeros);
    assert(all.drop_last() =~= zeros);
    assert(all.last() == n as int);
    let e = Seq::<int>::empty();
    let eight = Seq::new(8, |j: int| 0int);
    lemma_zero_bits(eight);
    assert(e + eight + e =~= eight);
}

proof fn lemma_zero_bits(z: Seq<int>)
    requires
        forall|i: int| 0 <= i < z.len() ==> #[trigger] z[i] == 0,
    ensures
        crate::net::bits_of(z) == 0,
    decreases z.len(),
{
    if z.len() > 0 {
        assert(z.last() == z[z.len() - 1]);
        let d = z.drop_last();
        assert forall|i: int| 0 <= i < d.len() implies #[trigger] d[i] == 0 by {
            assert(d[i] == z[i]);
        }
        lemma_zero_bits(d);
    }
}


/// Space before a hash does not count.
pub proof fn space_before_a_hash_does_not_count(
    user: Seq<char>,
    hash: Seq<char>,
    password: Seq<char>,
)
    requires
        is_user(user),
        is_word(hash),
    ensures
        password_ok(Some(password_line(user, seq![' '] + hash)), user, password) == hash_answers(
            hash,
            password,
        ),
        password_ok(
            Some(seq!['#'] + password_line(user, hash)),
            seq!['#'] + user,
            password,
        ) == false,
{
    let h = seq![' '] + hash;
    let l = password_line(user, h);
    assert(!is_space(user[0]));
    assert(!is_space(hash[0]) && !is_space(hash[hash.len() - 1]));
    assert(l[0] == user[0]);
    assert(l.last() == hash.last());
    lemma_tight(l);
    let none = Seq::<char>::empty();
    crate::laws::wording::trimming_takes_space_away(seq![' '], hash, none);
    assert(seq![' '] + hash + none =~= h);
    reveal_strlit("#");
    lemma_not_prefixed("#"@, l);
    lemma_around(user, ':', h);
    assert forall|i: int| 0 <= i < l.len() implies #[trigger] l[i] != '\n' && l[i] != '\r' by {
        if i < user.len() {
            assert(l[i] == user[i]);
            assert(!is_space(user[i]));
        } else if i > user.len() + 1 {
            assert(l[i] == hash[i - user.len() - 2]);
            assert(!is_space(hash[i - user.len() - 2]));
        }
    }
    lemma_first_line(l, none);
    let m = seq!['#'] + password_line(user, hash);
    lemma_password_line(user, hash);
    assert(m.last() == hash.last());
    lemma_tight(m);
    assert(m.subrange(0, 1) =~= "#"@);
    assert(starts_with(m, "#"@));
    assert forall|i: int| 0 <= i < m.len() implies #[trigger] m[i] != '\n' && m[i] != '\r' by {
        if i > 0 {
            assert(m[i] == password_line(user, hash)[i - 1]);
            assert(password_line(user, hash).contains(m[i]));
        }
    }
    lemma_first_line(m, none);
    let one = seq![m];
    assert(one.skip(1) =~= Seq::empty());
    assert(stored_hash(one, seq!['#'] + user) == stored_hash(one.skip(1), seq!['#'] + user));
}

} // verus!
