//! How passwords and requests are made fit to be trusted.

use vstd::prelude::*;

use crate::outside::{base64_url_text, json_text, md5_digest};
use crate::servers::acme::{
    account_of, canonical_key, coordinates, payload_text, protected_members, signed_body,
    signed_text, Signer, UnsignedView,
};
use crate::servers::certs::{chain_of, key_of};
use crate::servers::json::MemberView;
use crate::servers::passwords::{
    after_rounds, apr1, digest_text, digits64, first_digest, marks, round_input, spread, triple,
};
use vstd::utf8::encode_utf8;

verus! {

/// Each round digests what the one before came to, between the password and the salt, in
/// an order that changes from round to round.
pub proof fn rounds_mix_password_and_salt(
    pw: Seq<u8>,
    salt: Seq<u8>,
    d: Seq<u8>,
    k: int,
    n: nat,
)
    requires
        0 <= k,
    ensures
        k % 2 == 1 && k % 3 != 0 && k % 7 != 0 ==> round_input(pw, salt, d, k) == pw + salt + pw
            + d,
        k % 2 == 1 && k % 3 == 0 && k % 7 != 0 ==> round_input(pw, salt, d, k) == pw + pw + d,
        k % 2 == 1 && k % 3 != 0 && k % 7 == 0 ==> round_input(pw, salt, d, k) == pw + salt + d,
        k % 2 == 1 && k % 3 == 0 && k % 7 == 0 ==> round_input(pw, salt, d, k) == pw + d,
        k % 2 == 0 && k % 3 != 0 && k % 7 != 0 ==> round_input(pw, salt, d, k) == d + salt + pw
            + pw,
        k % 2 == 0 && k % 3 == 0 && k % 7 != 0 ==> round_input(pw, salt, d, k) == d + pw + pw,
        k % 2 == 0 && k % 3 != 0 && k % 7 == 0 ==> round_input(pw, salt, d, k) == d + salt + pw,
        k % 2 == 0 && k % 3 == 0 && k % 7 == 0 ==> round_input(pw, salt, d, k) == d + pw,
        after_rounds(pw, salt, n + 1) == md5_digest(
            round_input(pw, salt, after_rounds(pw, salt, n), n as int),
        ),
        after_rounds(pw, salt, 0) == first_digest(pw, salt),
{
    let e = Seq::<u8>::empty();
    assert(pw + e =~= pw);
    assert(d + e =~= d);
    assert(pw + salt + e =~= pw + salt);
    assert(d + salt + e =~= d + salt);
}

/// A thousand rounds make the hash, which names its kind and its salt.
pub proof fn a_thousand_rounds_make_the_hash(password: Seq<char>, salt: Seq<char>)
    ensures
        apr1(password, salt) == "$apr1$"@ + salt + seq!['$'] + digest_text(
            after_rounds(encode_utf8(password), encode_utf8(salt), 1000),
        ),
{
    reveal_strlit("$");
    assert("$"@ =~= seq!['$']);
}

/// The first digest is of the password, the kind, the salt, as much of another digest as
/// the password is long, and a mark for each bit of that length.
pub proof fn the_first_digest_marks_the_length(pw: Seq<u8>, salt: Seq<u8>, n: int)
    ensures
        first_digest(pw, salt) == md5_digest(
            pw + encode_utf8("$apr1$"@) + salt + spread(
                md5_digest(pw + salt + pw),
                pw.len() as int,
            ) + marks(pw, pw.len() as int),
        ),
        marks(pw, 0) == Seq::<u8>::empty(),
        n > 0 && n % 2 == 1 ==> marks(pw, n) == seq![0u8] + marks(pw, n / 2),
        n > 0 && n % 2 == 0 ==> marks(pw, n) == seq![pw[0]] + marks(pw, n / 2),
        0 <= n < 16 ==> spread(pw, n) == pw.take(n),
        n >= 16 ==> spread(pw, n) == pw.take(16) + spread(pw, n - 16),
{
}

/// A digest is written in twenty-two signs, six bits each, from the lowest on.
pub proof fn digests_are_written_in_signs(d: Seq<u8>, w: int, n: nat)
    requires
        0 <= w,
        d.len() == 16,
    ensures
        digits64(w, 0) == Seq::<char>::empty(),
        digits64(w, n + 1) == seq![
            "./0123456789ABCDEFGHIJKLMNOPQRSTUVWXYZabcdefghijklmnopqrstuvwxyz"@[w % 64],
        ] + digits64(w / 64, n),
        digits64(w, n).len() == n,
        digest_text(d).len() == 22,
        digest_text(d).take(4) == digits64(d[0] * 0x1_0000 + d[6] * 0x100 + d[12], 4),
        digest_text(d).skip(20) == digits64(d[11] as int, 2),
    decreases n,
{
    lemma_signs(w, n);
    lemma_signs(triple(d[0], d[6], d[12]), 4);
    lemma_signs(triple(d[1], d[7], d[13]), 4);
    lemma_signs(triple(d[2], d[8], d[14]), 4);
    lemma_signs(triple(d[3], d[9], d[15]), 4);
    lemma_signs(triple(d[4], d[10], d[5]), 4);
    lemma_signs(triple(0, 0, d[11]), 2);
    assert(digest_text(d).take(4) =~= digits64(triple(d[0], d[6], d[12]), 4));
    assert(digest_text(d).skip(20) =~= digits64(triple(0, 0, d[11]), 2));
}

proof fn lemma_signs(w: int, n: nat)
    ensures
        digits64(w, n).len() == n,
    decreases n,
{
    if n > 0 {
        lemma_signs(w / 64, (n - 1) as nat);
    }
}

/// What is signed is the protected part and, behind a dot, the payload; and the signature
/// stands beside both.
pub proof fn requests_are_signed(
    protected: Seq<char>,
    payload: Seq<char>,
    signature: Seq<u8>,
    url: Seq<char>,
)
    ensures
        signed_text(protected, payload) == protected + seq!['.'] + payload,
        signed_body(UnsignedView { url, protected, payload }, Some(signature)) == Ok::<
            Seq<char>,
            Seq<char>,
        >(
            json_text(
                seq![
                    ("protected"@, MemberView::Text(protected)),
                    ("payload"@, MemberView::Text(payload)),
                    ("signature"@, MemberView::Text(base64_url_text(signature))),
                ],
            ),
        ),
        signed_body(UnsignedView { url, protected, payload }, None) is Err,
        payload_text(None) == Seq::<char>::empty(),
{
    reveal_strlit(".");
    assert("."@ =~= seq!['.']);
}

/// The protected part names how it is signed, the nonce, where it goes, and who signs:
/// the account, or its key before there is one.
pub proof fn requests_name_their_signer(
    url: Seq<char>,
    nonce: Seq<char>,
    kid: Seq<char>,
    x: Seq<char>,
    y: Seq<char>,
)
    ensures
        protected_members(url, nonce, Signer::Account(kid)) == seq![
            ("alg"@, MemberView::Text("ES256"@)),
            ("nonce"@, MemberView::Text(nonce)),
            ("url"@, MemberView::Text(url)),
            ("kid"@, MemberView::Text(kid)),
        ],
        protected_members(url, nonce, Signer::Key(x, y)).last() == (
            "jwk"@,
            MemberView::Object(
                seq![("kty"@, "EC"@), ("crv"@, "P-256"@), ("x"@, x), ("y"@, y)],
            ),
        ),
        canonical_key(x, y) == "{\"crv\":\"P-256\",\"kty\":\"EC\",\"x\":\""@ + x + "\",\"y\":\""@ + y
            + "\"}"@,
{
}

/// A public key is a point: a mark, and then its two coordinates of thirty-two bytes each.
pub proof fn keys_are_points(a: Seq<u8>, b: Seq<u8>)
    requires
        a.len() == 32,
        b.len() == 32,
    ensures
        coordinates(seq![4u8] + a + b) == Some((base64_url_text(a), base64_url_text(b))),
        coordinates(seq![2u8] + a + b) is None,
        coordinates(seq![4u8] + a) is None,
{
    let k = seq![4u8] + a + b;
    assert(k.subrange(1, 33) =~= a);
    assert(k.subrange(33, 65) =~= b);
}

/// An account needs both its keys; a chain needs a certificate; and a file of keys a key.
pub proof fn nothing_may_be_missing(
    private: Seq<u8>,
    public: Seq<u8>,
    chain: Seq<Seq<u8>>,
    cause: Seq<char>,
)
    ensures
        account_of(Some(private), Some(public)) == Ok::<(Seq<u8>, Seq<u8>), Seq<char>>(
            (private, public),
        ),
        account_of(None, Some(public)) is Err,
        account_of(Some(private), None) is Err,
        chain.len() > 0 ==> chain_of(Ok(chain)) == Ok::<Seq<Seq<u8>>, Seq<char>>(chain),
        chain_of(Ok(Seq::empty())) is Err,
        chain_of(Err(cause)) == Err::<Seq<Seq<u8>>, Seq<char>>(cause),
        key_of(Ok(Some(private))) == Ok::<Seq<u8>, Seq<char>>(private),
        key_of(Ok(None)) is Err,
        key_of(Err(cause)) == Err::<Seq<u8>, Seq<char>>(cause),
{
}

} // verus!
