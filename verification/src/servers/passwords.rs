//! Credentials: the `Authorization` header and the hashes of a password file.

use vstd::prelude::*;
use vstd::utf8::{
    decode_utf8, encode_utf8, encode_utf8_decode_utf8, encode_utf8_valid_utf8, valid_utf8,
};

use crate::outside::{
    base64_bytes, base64_decode, base64_encode, base64_text, bcrypt_answers, bcrypt_verify,
    md5_digest, md5_of, sha1_digest, sha1_of, utf8_string,
};
use crate::text::{
    chars_of, has_prefix, lemma_parted, lines, split_lines, split_once, split_once_at, starts_with, strip_prefix,
    trim, trimmed, without_prefix,
};

verus! {

// ---------------------------------------------------------------------------
// The Authorization header
// ---------------------------------------------------------------------------

/// The user and the password that decoded credentials name.
pub open spec fn credentials(decoded: Option<Seq<u8>>) -> Option<(Seq<char>, Seq<char>)> {
    match decoded {
        Some(b) => if valid_utf8(b) {
            split_once(decode_utf8(b), ':')
        } else {
            None
        },
        None => None,
    }
}

/// The user and the password that decoded credentials name: UTF-8 text, parted
/// at its first colon.
pub fn parse_credentials(decoded: Option<Vec<u8>>) -> (r: Option<(String, String)>)
    ensures
        r.deep_view() == credentials(decoded.deep_view()),
{
    match decoded {
        Some(b) => {
            assert(b.deep_view() =~= b@);
            match utf8_string(b) {
                Some(t) => split_once_at(t.as_str(), ':'),
                None => None,
            }
        },
        None => None,
    }
}

/// The user and the password that a `Basic` authorization header names.
pub open spec fn basic_auth(header: Seq<char>) -> Option<(Seq<char>, Seq<char>)> {
    match strip_prefix(header, "Basic "@) {
        Some(t) => credentials(base64_bytes(trim(t))),
        None => None,
    }
}

/// The user and the password that a `Basic` authorization header names.
pub fn parse_basic_auth(header: &str) -> (r: Option<(String, String)>)
    ensures
        r.deep_view() == basic_auth(header@),
{
    match without_prefix(header, "Basic ") {
        Some(t) => {
            let text = trimmed(t.as_str());
            let decoded = base64_decode(text.as_str());
            parse_credentials(decoded)
        },
        None => None,
    }
}

// ---------------------------------------------------------------------------
// The apr1 scheme
// ---------------------------------------------------------------------------

/// The sixty-four digits of the scheme, in the order of their values.
pub const DIGITS64: &'static str = "./0123456789ABCDEFGHIJKLMNOPQRSTUVWXYZabcdefghijklmnopqrstuvwxyz";

/// What every hash of the scheme starts with.
pub const MAGIC: &'static str = "$apr1$";

/// As many bytes of the digest `d`, over and over, as `n` says.
pub open spec fn spread(d: Seq<u8>, n: int) -> Seq<u8>
    decreases n,
{
    if n < 16 {
        d.take(n)
    } else {
        d.take(16) + spread(d, n - 16)
    }
}

/// One byte for each binary digit of `n`, the lowest first: zero for a one, and
/// the first byte of the password for a zero.
pub open spec fn marks(pw: Seq<u8>, n: int) -> Seq<u8>
    decreases n,
{
    if n <= 0 {
        Seq::empty()
    } else {
        seq![
            if n % 2 == 1 {
                0u8
            } else {
                pw[0]
            },
        ] + marks(pw, n / 2)
    }
}

/// The digest that the rounds start from.
pub open spec fn first_digest(pw: Seq<u8>, salt: Seq<u8>) -> Seq<u8> {
    let inner = md5_digest(pw + salt + pw);
    md5_digest(
        pw + encode_utf8(MAGIC@) + salt + spread(inner, pw.len() as int) + marks(
            pw,
            pw.len() as int,
        ),
    )
}

/// What round `k` digests, from the digest of the round before.
pub open spec fn round_input(pw: Seq<u8>, salt: Seq<u8>, d: Seq<u8>, k: int) -> Seq<u8> {
    (if k % 2 == 1 {
        pw
    } else {
        d
    }) + (if k % 3 != 0 {
        salt
    } else {
        Seq::empty()
    }) + (if k % 7 != 0 {
        pw
    } else {
        Seq::empty()
    }) + (if k % 2 == 1 {
        d
    } else {
        pw
    })
}

/// The digest after the first `n` rounds.
pub open spec fn after_rounds(pw: Seq<u8>, salt: Seq<u8>, n: nat) -> Seq<u8>
    decreases n,
{
    if n == 0 {
        first_digest(pw, salt)
    } else {
        md5_digest(
            round_input(pw, salt, after_rounds(pw, salt, (n - 1) as nat), n - 1),
        )
    }
}

/// `n` digits of the scheme, the lowest first.
pub open spec fn digits64(w: int, n: nat) -> Seq<char>
    decreases n,
{
    if n == 0 {
        Seq::empty()
    } else {
        seq![DIGITS64@[w % 64]] + digits64(w / 64, (n - 1) as nat)
    }
}

/// The number that three bytes make, the highest first.
pub open spec fn triple(a: u8, b: u8, c: u8) -> int {
    a * 0x1_0000 + b * 0x100 + c
}

/// The digest as text of the scheme.
pub open spec fn digest_text(d: Seq<u8>) -> Seq<char> {
    digits64(triple(d[0], d[6], d[12]), 4) + digits64(triple(d[1], d[7], d[13]), 4) + digits64(
        triple(d[2], d[8], d[14]),
        4,
    ) + digits64(triple(d[3], d[9], d[15]), 4) + digits64(triple(d[4], d[10], d[5]), 4) + digits64(
        triple(0, 0, d[11]),
        2,
    )
}

/// The hash of a password with a salt: a thousand rounds of MD5.
pub open spec fn apr1(password: Seq<char>, salt: Seq<char>) -> Seq<char> {
    MAGIC@ + salt + "$"@ + digest_text(
        after_rounds(encode_utf8(password), encode_utf8(salt), 1000),
    )
}

fn extend(out: &mut Vec<u8>, part: &[u8])
    ensures
        final(out)@ == old(out)@ + part@,
{
    let ghost start = out@;
    let mut i: usize = 0;
    assert(start + part@.take(0) =~= start);
    while i < part.len()
        invariant
            i <= part@.len(),
            out@ == start + part@.take(i as int),
        decreases part@.len() - i,
    {
        out.push(part[i]);
        assert(start + part@.take(i + 1) =~= (start + part@.take(i as int)).push(part@[i as int]));
        i = i + 1;
    }
    assert(part@.take(part@.len() as int) =~= part@);
}

fn extend_spread(out: &mut Vec<u8>, d: &Vec<u8>, n: usize)
    requires
        d@.len() == 16,
    ensures
        final(out)@ == old(out)@ + spread(d@, n as int),
    decreases n,
{
    let ghost start = out@;
    if n < 16 {
        let part = vstd::slice::slice_subrange(d.as_slice(), 0, n);
        assert(part@ =~= d@.take(n as int));
        extend(out, part);
    } else {
        extend(out, d.as_slice());
        assert(d@.take(16) =~= d@);
        extend_spread(out, d, n - 16);
        assert((start + d@) + spread(d@, n - 16) =~= start + (d@ + spread(d@, n - 16)));
    }
}

fn extend_marks(out: &mut Vec<u8>, pw: &[u8], n: usize)
    requires
        n > 0 ==> pw@.len() > 0,
    ensures
        final(out)@ == old(out)@ + marks(pw@, n as int),
    decreases n,
{
    let ghost start = out@;
    if n == 0 {
        assert(start + Seq::<u8>::empty() =~= start);
        return;
    }
    let b: u8 = if n % 2 == 1 {
        0
    } else {
        pw[0]
    };
    out.push(b);
    extend_marks(out, pw, n / 2);
    assert(start.push(b) + marks(pw@, n as int / 2) =~= start + (seq![b] + marks(
        pw@,
        n as int / 2,
    )));
}

fn push_digits64(out: &mut String, a: u8, b: u8, c: u8, n: usize)
    requires
        n <= 4,
    ensures
        final(out)@ == old(out)@ + digits64(triple(a, b, c), n as nat),
{
    let table = chars_of(DIGITS64);
    proof {
        reveal_strlit("./0123456789ABCDEFGHIJKLMNOPQRSTUVWXYZabcdefghijklmnopqrstuvwxyz");
        assert(DIGITS64@.len() == 64);
    }
    let mut w: u32 = a as u32 * 0x1_0000 + b as u32 * 0x100 + c as u32;
    let ghost whole = digits64(triple(a, b, c), n as nat);
    let ghost start = out@;
    let mut i: usize = 0;
    while i < n
        invariant
            i <= n,
            table@ == DIGITS64@,
            table@.len() == 64,
            start + whole == out@ + digits64(w as int, (n - i) as nat),
        decreases n - i,
    {
        let k: usize = (w % 64) as usize;
        let ghost before = out@;
        out.push(table[k]);
        assert(before + (seq![DIGITS64@[w as int % 64]] + digits64(
            w as int / 64,
            (n - i - 1) as nat,
        )) =~= before.push(table@[k as int]) + digits64(w as int / 64, (n - i - 1) as nat));
        w = w / 64;
        i = i + 1;
    }
    assert(out@ + Seq::<char>::empty() =~= out@);
}

/// The hash of a password with a salt.
pub fn apr1_crypt(password: &str, salt: &str) -> (r: String)
    ensures
        r@ == apr1(password@, salt@),
{
    let pw = password.as_bytes();
    let sb = salt.as_bytes();
    let ghost p = pw@;
    let ghost s = sb@;

    let mut inner: Vec<u8> = Vec::new();
    extend(&mut inner, pw);
    extend(&mut inner, sb);
    extend(&mut inner, pw);
    assert(inner@ =~= p + s + p);
    let inner_digest = md5_of(inner.as_slice());

    let mut outer: Vec<u8> = Vec::new();
    extend(&mut outer, pw);
    extend(&mut outer, MAGIC.as_bytes());
    extend(&mut outer, sb);
    let n: usize = pw.len();
    extend_spread(&mut outer, &inner_digest, n);
    extend_marks(&mut outer, pw, n);
    assert(outer@ =~= p + encode_utf8(MAGIC@) + s + spread(inner_digest@, p.len() as int) + marks(
        p,
        p.len() as int,
    ));
    let mut d = md5_of(outer.as_slice());

    let mut round: u32 = 0;
    while round < 1000
        invariant
            round <= 1000,
            pw@ == p,
            sb@ == s,
            d@ == after_rounds(p, s, round as nat),
            d@.len() == 16,
        decreases 1000 - round,
    {
        let mut buf: Vec<u8> = Vec::new();
        if round % 2 == 1 {
            extend(&mut buf, pw);
        } else {
            extend(&mut buf, d.as_slice());
        }
        if round % 3 != 0 {
            extend(&mut buf, sb);
        }
        if round % 7 != 0 {
            extend(&mut buf, pw);
        }
        if round % 2 == 1 {
            extend(&mut buf, d.as_slice());
        } else {
            extend(&mut buf, pw);
        }
        assert(buf@ =~= round_input(p, s, d@, round as int));
        d = md5_of(buf.as_slice());
        round = round + 1;
    }

    let mut out = MAGIC.to_owned();
    out.append(salt);
    out.append("$");
    let ghost head = out@;
    push_digits64(&mut out, d[0], d[6], d[12], 4);
    push_digits64(&mut out, d[1], d[7], d[13], 4);
    push_digits64(&mut out, d[2], d[8], d[14], 4);
    push_digits64(&mut out, d[3], d[9], d[15], 4);
    push_digits64(&mut out, d[4], d[10], d[5], 4);
    push_digits64(&mut out, 0, 0, d[11], 2);
    assert(out@ =~= head + digest_text(d@));
    out
}

/// Whether a password answers the hash `rest`, which follows the scheme's mark.
pub open spec fn apr1_answers(rest: Seq<char>, password: Seq<char>) -> bool {
    match split_once(rest, '$') {
        Some(v) => apr1(password, v.0) == MAGIC@ + rest,
        None => false,
    }
}

/// Whether a password answers the hash `rest`, which follows the scheme's mark.
pub fn apr1_verify(rest: &str, password: &str) -> (r: bool)
    ensures
        r == apr1_answers(rest@, password@),
{
    match split_once_at(rest, '$') {
        Some(v) => {
            let computed = apr1_crypt(password, v.0.as_str());
            let mut whole = MAGIC.to_owned();
            whole.append(rest);
            computed.as_str().eq(whole.as_str())
        },
        None => false,
    }
}

// ---------------------------------------------------------------------------
// Password files
// ---------------------------------------------------------------------------

/// Whether a hash is marked as one of bcrypt.
pub open spec fn is_bcrypt(hash: Seq<char>) -> bool {
    starts_with(hash, "$2y$"@) || starts_with(hash, "$2a$"@) || starts_with(hash, "$2b$"@)
}

/// Whether a password answers a hash: bcrypt, apr1 or `{SHA}`. No password
/// answers a hash of another scheme.
pub open spec fn hash_answers(hash: Seq<char>, password: Seq<char>) -> bool {
    if is_bcrypt(hash) {
        bcrypt_answers(password, hash) == Some(true)
    } else if starts_with(hash, MAGIC@) {
        apr1_answers(hash.skip(MAGIC@.len() as int), password)
    } else if starts_with(hash, "{SHA}"@) {
        base64_text(sha1_digest(encode_utf8(password))) == hash.skip("{SHA}"@.len() as int)
    } else {
        false
    }
}

/// Whether a password answers a hash.
pub fn verify_hash(hash: &str, password: &str) -> (r: bool)
    ensures
        r == hash_answers(hash@, password@),
{
    if has_prefix(hash, "$2y$") || has_prefix(hash, "$2a$") || has_prefix(hash, "$2b$") {
        match bcrypt_verify(password, hash) {
            Some(b) => b,
            None => false,
        }
    } else {
        match without_prefix(hash, MAGIC) {
            Some(rest) => apr1_verify(rest.as_str(), password),
            None => match without_prefix(hash, "{SHA}") {
                Some(text) => {
                    let digest = sha1_of(password.as_bytes());
                    let encoded = base64_encode(digest.as_slice());
                    encoded.as_str().eq(text.as_str())
                },
                None => false,
            },
        }
    }
}

/// The user and the hash of one line of a password file; blank lines and
/// comments have none.
pub open spec fn password_entry(line: Seq<char>) -> Option<(Seq<char>, Seq<char>)> {
    let t = trim(line);
    if t.len() == 0 || starts_with(t, "#"@) {
        None
    } else {
        split_once(t, ':')
    }
}

/// The hash of the first entry for `user`.
pub open spec fn stored_hash(file: Seq<Seq<char>>, user: Seq<char>) -> Option<Seq<char>>
    decreases file.len(),
{
    if file.len() == 0 {
        None
    } else {
        match password_entry(file[0]) {
            Some(e) => if e.0 == user {
                Some(trim(e.1))
            } else {
                stored_hash(file.skip(1), user)
            },
            None => stored_hash(file.skip(1), user),
        }
    }
}

/// Whether the password of `user` is right, by the text of a password file; no
/// file, or no entry, lets nobody in.
pub open spec fn password_ok(file: Option<Seq<char>>, user: Seq<char>, password: Seq<char>) -> bool {
    match file {
        Some(t) => match stored_hash(lines(t), user) {
            Some(h) => hash_answers(h, password),
            None => false,
        },
        None => false,
    }
}

/// Whether the password of `user` is right, by the text of a password file.
pub fn verify_password(file: Option<&str>, user: &str, password: &str) -> (r: bool)
    ensures
        r == password_ok(file.deep_view(), user@, password@),
{
    let text = match file {
        Some(t) => t,
        None => return false,
    };
    let list = split_lines(text);
    let ghost all = list.deep_view();
    let mut i: usize = 0;
    assert(all.skip(0) =~= all);
    while i < list.len()
        invariant
            i <= list.len(),
            all == list.deep_view(),
            all == lines(text@),
            file.deep_view() == Some(text@),
            stored_hash(all, user@) == stored_hash(all.skip(i as int), user@),
        decreases list.len() - i,
    {
        assert(all.skip(i as int)[0] == list@[i as int]@);
        assert(all.skip(i as int).skip(1) =~= all.skip(i + 1));
        let line = trimmed(list[i].as_str());
        if !(line.as_str().is_empty() || has_prefix(line.as_str(), "#")) {
            if let Some(entry) = split_once_at(line.as_str(), ':') {
                if entry.0.as_str().eq(user) {
                    let hash = trimmed(entry.1.as_str());
                    return verify_hash(hash.as_str(), password);
                }
            }
        }
        i = i + 1;
    }
    false
}

// ---------------------------------------------------------------------------
// Laws
// ---------------------------------------------------------------------------

/// The hash that a password has with a salt is answered by that password.
pub proof fn own_hashes_are_answered(password: Seq<char>, salt: Seq<char>)
    requires
        !salt.contains('$'),
    ensures
        hash_answers(apr1(password, salt), password),
{
    reveal_strlit("$apr1$");
    reveal_strlit("$2y$");
    reveal_strlit("$2a$");
    reveal_strlit("$2b$");
    reveal_strlit("$");
    let digest = digest_text(after_rounds(encode_utf8(password), encode_utf8(salt), 1000));
    let hash = apr1(password, salt);
    let rest = hash.skip(MAGIC@.len() as int);
    assert("$"@ =~= seq!['$']);
    assert(rest =~= salt + seq!['$'] + digest);
    lemma_parted(salt, '$', digest);
    assert(MAGIC@ + rest =~= hash);
    assert(hash.subrange(0, MAGIC@.len() as int) =~= MAGIC@);
    assert(hash[1] == 'a');
    assert forall|mark: Seq<char>| mark.len() == 4 && mark[1] == '2' implies !#[trigger] starts_with(
        hash,
        mark,
    ) by {
        if starts_with(hash, mark) {
            assert(hash.subrange(0, 4)[1] == hash[1]);
        }
    }
}

/// The base64 text of a password's SHA-1 digest is answered by that password.
pub proof fn own_digests_are_answered(password: Seq<char>)
    ensures
        hash_answers(
            "{SHA}"@ + base64_text(sha1_digest(encode_utf8(password))),
            password,
        ),
{
    reveal_strlit("{SHA}");
    reveal_strlit("$apr1$");
    reveal_strlit("$2y$");
    reveal_strlit("$2a$");
    reveal_strlit("$2b$");
    let text = base64_text(sha1_digest(encode_utf8(password)));
    let hash = "{SHA}"@ + text;
    assert(hash.skip("{SHA}"@.len() as int) =~= text);
    assert(hash.subrange(0, "{SHA}"@.len() as int) =~= "{SHA}"@);
    assert(hash[0] == '{');
    assert forall|mark: Seq<char>| mark.len() > 0 && mark[0] == '$' implies !#[trigger] starts_with(
        hash,
        mark,
    ) by {
        if starts_with(hash, mark) {
            assert(hash.subrange(0, mark.len() as int)[0] == hash[0]);
        }
    }
}

/// The user and the password that a client encodes are those that are read, as
/// long as the name of the user has no colon.
pub proof fn sent_credentials_are_read(user: Seq<char>, password: Seq<char>, text: Seq<char>)
    requires
        !user.contains(':'),
        base64_bytes(text) == Some(encode_utf8(user + ":"@ + password)),
        trim(text) == text,
    ensures
        basic_auth("Basic "@ + text) == Some((user, password)),
{
    reveal_strlit("Basic ");
    reveal_strlit(":");
    let header = "Basic "@ + text;
    assert(header.subrange(0, "Basic "@.len() as int) =~= "Basic "@);
    assert(header.skip("Basic "@.len() as int) =~= text);
    let plain = user + ":"@ + password;
    encode_utf8_valid_utf8(plain);
    encode_utf8_decode_utf8(plain);
    assert(":"@ =~= seq![':']);
    lemma_parted(user, ':', password);
}

/// No password lets in a user that a password file does not list, or anyone where
/// there is no such file.
pub proof fn strangers_are_refused(file: Seq<char>, user: Seq<char>, password: Seq<char>)
    requires
        stored_hash(lines(file), user) is None,
    ensures
        !password_ok(Some(file), user, password),
        !password_ok(None, user, password),
{
}

} // verus!
