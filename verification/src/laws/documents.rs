//! Documents that others send: certificates, directories and orders.

use vstd::prelude::*;

use crate::laws::certificates::elements_are_read;
use crate::servers::acme::{challenge_from, challenge_of, order_urls, service, state_of};
use crate::servers::certs::{
    asn1_time, der_element, from_serial, past_issuer, sequence, two_moments, validity,
};
use crate::servers::json::{entry_from, member, member_text, Json};

verus! {

// ---------------------------------------------------------------------------
// Certificates
// ---------------------------------------------------------------------------

/// An element with its tag and its length before it.
#[verifier::opaque]
pub open spec fn coded(tag: u8, content: Seq<u8>) -> Seq<u8> {
    if content.len() < 128 {
        seq![tag, content.len() as u8] + content
    } else if content.len() < 256 {
        seq![tag, 0x81u8, content.len() as u8] + content
    } else {
        seq![tag, 0x82u8, (content.len() / 256) as u8, (content.len() % 256) as u8] + content
    }
}

proof fn lemma_coded(tag: u8, content: Seq<u8>, rest: Seq<u8>)
    requires
        content.len() < 65536,
    ensures
        der_element(coded(tag, content) + rest) == Some((tag, content, rest)),
        coded(tag, content).len() <= content.len() + 4,
{
    reveal(coded);
    elements_are_read(tag, content, rest);
}

proof fn lemma_alone(tag: u8, content: Seq<u8>)
    requires
        content.len() < 65536,
    ensures
        der_element(coded(tag, content)) == Some((tag, content, Seq::<u8>::empty())),
        coded(tag, content).len() <= content.len() + 4,
{
    lemma_coded(tag, content, Seq::empty());
    assert(coded(tag, content) + Seq::<u8>::empty() =~= coded(tag, content));
}

/// The part of a certificate that is signed, from its number on: the number, how it is
/// signed, by whom, from when to when, and the rest.
pub open spec fn signed_part(
    serial: Seq<u8>,
    algorithm: Seq<u8>,
    issuer: Seq<u8>,
    from: (u8, Seq<u8>),
    to: (u8, Seq<u8>),
    rest: Seq<u8>,
) -> Seq<u8> {
    coded(2, serial) + (coded(0x30, algorithm) + (coded(0x30, issuer) + (coded(
        0x30,
        coded(from.0, from.1) + coded(to.0, to.1),
    ) + rest)))
}

/// A certificate is valid between the two moments that it names, whether it names its
/// version or not.
pub proof fn certificates_name_their_moments(
    version: Seq<u8>,
    serial: Seq<u8>,
    algorithm: Seq<u8>,
    issuer: Seq<u8>,
    from: (u8, Seq<u8>),
    to: (u8, Seq<u8>),
    rest: Seq<u8>,
    signature: Seq<u8>,
    a: int,
    b: int,
)
    requires
        version.len() < 65536 && serial.len() < 65536 && algorithm.len() < 65536 && issuer.len()
            < 65536,
        from.1.len() < 100 && to.1.len() < 100,
        signed_part(serial, algorithm, issuer, from, to, rest).len() < 65000,
        coded(0xa0, version).len() + signed_part(
            serial,
            algorithm,
            issuer,
            from,
            to,
            rest,
        ).len() < 65000,
        coded(0xa0, version).len() + signed_part(
            serial,
            algorithm,
            issuer,
            from,
            to,
            rest,
        ).len() + signature.len() < 65500,
        asn1_time(from.0, from.1) == Some(a),
        asn1_time(to.0, to.1) == Some(b),
    ensures
        ({
            let s = signed_part(serial, algorithm, issuer, from, to, rest);
            &&& validity(
                coded(0x30, coded(0x30, coded(0xa0, version) + s) + signature),
            ) == Some((a, b))
            &&& validity(coded(0x30, coded(0x30, s) + signature)) == Some((a, b))
        }),
{
    let s = signed_part(serial, algorithm, issuer, from, to, rest);
    lemma_signed(serial, algorithm, issuer, from, to, rest, a, b);
    let v = coded(0xa0, version) + s;
    lemma_coded(0xa0, version, s);
    lemma_coded(0x30, v, signature);
    lemma_alone(0x30, coded(0x30, v) + signature);
    lemma_coded(0x30, s, signature);
    lemma_alone(0x30, coded(0x30, s) + signature);
}

proof fn lemma_signed(
    serial: Seq<u8>,
    algorithm: Seq<u8>,
    issuer: Seq<u8>,
    from: (u8, Seq<u8>),
    to: (u8, Seq<u8>),
    rest: Seq<u8>,
    a: int,
    b: int,
)
    requires
        serial.len() < 65536 && algorithm.len() < 65536 && issuer.len() < 65536,
        from.1.len() < 100 && to.1.len() < 100,
        asn1_time(from.0, from.1) == Some(a),
        asn1_time(to.0, to.1) == Some(b),
    ensures
        ({
            let s = signed_part(serial, algorithm, issuer, from, to, rest);
            let times = coded(from.0, from.1) + coded(to.0, to.1);
            &&& from_serial(s) == Some(s)
            &&& past_issuer(s) == Some(coded(0x30, times) + rest)
            &&& sequence(coded(0x30, times) + rest) == Some(times)
            &&& two_moments(times) == Some((a, b))
        }),
{
    let times = coded(from.0, from.1) + coded(to.0, to.1);
    let r4 = coded(0x30, times) + rest;
    let r3 = coded(0x30, issuer) + r4;
    let r2 = coded(0x30, algorithm) + r3;
    lemma_coded(2, serial, r2);
    lemma_coded(0x30, algorithm, r3);
    lemma_coded(0x30, issuer, r4);
    lemma_coded(from.0, from.1, coded(to.0, to.1));
    lemma_alone(to.0, to.1);
    lemma_coded(0x30, times, rest);
}

// ---------------------------------------------------------------------------
// Members
// ---------------------------------------------------------------------------

/// A member of a document is the first with its name; what has no members, or none of
/// that name, has nothing there.
pub proof fn the_first_member_counts(j: Json, name: Seq<char>, k: int)
    requires
        j is Entries,
        0 <= k < j->Entries_0@.len(),
        j->Entries_0@[k].0@ == name,
        forall|i: int| 0 <= i < k ==> (#[trigger] j->Entries_0@[i]).0@ != name,
    ensures
        member(j, name) == j->Entries_0@[k].1,
        j->Entries_0@[k].1 matches Json::Text(s) ==> member_text(j, name) == Some(s@),
        !(j->Entries_0@[k].1 is Text) ==> member_text(j, name) is None,
{
    lemma_entry(j->Entries_0@, 0, k, name);
}

proof fn lemma_entry(e: Seq<(String, Json)>, i: int, k: int, name: Seq<char>)
    requires
        0 <= i <= k < e.len(),
        e[k].0@ == name,
        forall|m: int| 0 <= m < k ==> (#[trigger] e[m]).0@ != name,
    ensures
        entry_from(e, i, name) == e[k].1,
    decreases k - i,
{
    if i < k {
        assert(e[i].0@ != name);
        lemma_entry(e, i + 1, k, name);
    }
}

/// A directory names its services; and one that it does not name is missing.
pub proof fn directories_name_services(d: Json, name: Seq<char>, url: Seq<char>)
    ensures
        member_text(d, name) == Some(url) ==> service(d, name) == Ok::<Seq<char>, Seq<char>>(url),
        member_text(d, name) is None ==> service(d, name) is Err,
        member_text(d, "status"@) == Some(url) ==> state_of(d) == url,
{
}

/// Of the ways to prove a name the first over plain connections is taken, with its token
/// and its address; without one, or without these, there is no proof.
pub proof fn names_are_proved_over_plain_connections(
    authz: Json,
    k: int,
    token: Seq<char>,
    url: Seq<char>,
)
    requires
        member(authz, "challenges"@) is List,
        0 <= k < member(authz, "challenges"@)->List_0@.len(),
        member_text(member(authz, "challenges"@)->List_0@[k], "type"@) == Some("http-01"@),
        forall|i: int|
            0 <= i < k ==> member_text(
                #[trigger] member(authz, "challenges"@)->List_0@[i],
                "type"@,
            ) != Some("http-01"@),
    ensures
        member_text(member(authz, "challenges"@)->List_0@[k], "token"@) == Some(token)
            && member_text(member(authz, "challenges"@)->List_0@[k], "url"@) == Some(url)
            ==> challenge_of(authz) == Ok::<(Seq<char>, Seq<char>), Seq<char>>((token, url)),
        member_text(member(authz, "challenges"@)->List_0@[k], "token"@) is None ==> challenge_of(
            authz,
        ) is Err,
        member_text(member(authz, "challenges"@)->List_0@[k], "url"@) is None ==> challenge_of(
            authz,
        ) is Err,
{
    lemma_challenge(member(authz, "challenges"@)->List_0@, 0, k);
}

proof fn lemma_challenge(l: Seq<Json>, i: int, k: int)
    requires
        0 <= i <= k < l.len(),
        member_text(l[k], "type"@) == Some("http-01"@),
        forall|m: int| 0 <= m < k ==> member_text(#[trigger] l[m], "type"@) != Some("http-01"@),
    ensures
        challenge_from(l, i) == Some(l[k]),
    decreases k - i,
{
    if i < k {
        assert(member_text(l[i], "type"@) != Some("http-01"@));
        lemma_challenge(l, i + 1, k);
    }
}

/// An order names where its first name is to be proved, and where it is to be finished.
pub proof fn orders_name_two_addresses(order: Json, s: String, finish: Seq<char>)
    requires
        member(order, "authorizations"@) is List,
        member(order, "authorizations"@)->List_0@.len() > 0,
        member(order, "authorizations"@)->List_0@[0] == Json::Text(s),
    ensures
        member_text(order, "finalize"@) == Some(finish) ==> order_urls(order) == Ok::<
            (Seq<char>, Seq<char>),
            Seq<char>,
        >((s@, finish)),
        member_text(order, "finalize"@) is None ==> order_urls(order) is Err,
{
}

} // verus!
