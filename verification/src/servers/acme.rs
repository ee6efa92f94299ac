//! Asking an authority for a certificate: the order of requests, what each says,
//! and what is read from the replies.

use vstd::prelude::*;
use vstd::slice::slice_subrange;
use vstd::utf8::encode_utf8;

use crate::digits::{decimal, decimal_of};
use crate::outside::{
    base64_url_encode, base64_url_text, certificate_key, certificate_key_pem, certificate_params,
    certificate_request_der, ecdsa_generate, ecdsa_point, ecdsa_public_key, ecdsa_sign,
    ecdsa_verifies, host_names, is_ascii_text, json_document, json_parse, json_plain, json_text,
    json_write, lossy_string, lossy_text, requested_key, requested_names, sha256_digest, sha256_of,
};
use crate::servers::certs::{fault_fits, holds_key_for, with_cause, CertFault};
use crate::servers::http::{bytes_of, copy_bytes};
use crate::servers::json::{member, member_text, text_of, Json, Member, MemberView};
use crate::text::{contains, contains_str, lines, replace_all, replaced_all, split_lines};

verus! {

/// Where the authority lists its services.
pub const DIRECTORY_URL: &'static str = "https://acme-v02.api.letsencrypt.org/directory";

/// The media type of signed requests.
pub const JOSE: &'static str = "application/jose+json";

/// How often the authority is asked for the state of something.
pub const POLLS: u32 = 20;

// ---------------------------------------------------------------------------
// What replies say
// ---------------------------------------------------------------------------

/// Text or a message, by its value.
pub open spec fn outcome(r: Result<String, String>) -> Result<Seq<char>, Seq<char>> {
    match r {
        Ok(s) => Ok(s@),
        Err(e) => Err(e@),
    }
}

/// Two texts or a message, by their values.
pub open spec fn pair_outcome(r: Result<(String, String), String>) -> Result<
    (Seq<char>, Seq<char>),
    Seq<char>,
> {
    match r {
        Ok(p) => Ok((p.0@, p.1@)),
        Err(e) => Err(e@),
    }
}

/// A service in the list of the authority.
pub open spec fn service(directory: Json, name: Seq<char>) -> Result<Seq<char>, Seq<char>> {
    match member_text(directory, name) {
        Some(u) => Ok(u),
        None => Err("ACME directory missing '"@ + name + "'"@),
    }
}

/// A service in the list of the authority.
pub fn url_str(directory: &Json, name: &str) -> (r: Result<String, String>)
    ensures
        outcome(r) == service(*directory, name@),
{
    match directory.text_at(name) {
        Some(u) => Ok(u),
        None => {
            let mut e = "ACME directory missing '".to_owned();
            e.append(name);
            e.append("'");
            Err(e)
        },
    }
}

/// The first text of a list.
pub open spec fn first_text(j: Json) -> Option<Seq<char>> {
    match j {
        Json::List(l) => if l@.len() > 0 {
            text_of(l@[0])
        } else {
            None
        },
        _ => None,
    }
}

/// Where an order is to be authorized, and where it is finalized.
pub open spec fn order_urls(order: Json) -> Result<(Seq<char>, Seq<char>), Seq<char>> {
    match first_text(member(order, "authorizations"@)) {
        None => Err("ACME newOrder response missing authorizations"@),
        Some(a) => match member_text(order, "finalize"@) {
            None => Err("ACME newOrder response missing finalize URL"@),
            Some(f) => Ok((a, f)),
        },
    }
}

/// Where an order is to be authorized, and where it is finalized.
pub fn read_order(order: &Json) -> (r: Result<(String, String), String>)
    ensures
        pair_outcome(r) == order_urls(*order),
{
    let first = match order.get("authorizations") {
        Some(Json::List(l)) => if l.len() > 0 {
            l[0].as_text()
        } else {
            None
        },
        _ => None,
    };
    match first {
        None => Err("ACME newOrder response missing authorizations".to_owned()),
        Some(a) => match order.text_at("finalize") {
            None => Err("ACME newOrder response missing finalize URL".to_owned()),
            Some(f) => Ok((a, f)),
        },
    }
}

/// Whether a challenge is one over HTTP.
pub open spec fn is_http_challenge(j: Json) -> bool {
    member_text(j, "type"@) == Some("http-01"@)
}

/// The first challenge over HTTP of a list, from a place on.
pub open spec fn challenge_from(l: Seq<Json>, i: int) -> Option<Json>
    decreases l.len() - i,
{
    if i < 0 || i >= l.len() {
        None
    } else if is_http_challenge(l[i]) {
        Some(l[i])
    } else {
        challenge_from(l, i + 1)
    }
}

/// The token of the challenge over HTTP, and where it is triggered.
pub open spec fn challenge_of(authz: Json) -> Result<(Seq<char>, Seq<char>), Seq<char>> {
    let c = match member(authz, "challenges"@) {
        Json::List(l) => challenge_from(l@, 0),
        _ => None,
    };
    match c {
        None => Err("ACME authorization has no http-01 challenge"@),
        Some(j) => match member_text(j, "token"@) {
            None => Err("ACME challenge missing token"@),
            Some(t) => match member_text(j, "url"@) {
                None => Err("ACME challenge missing url"@),
                Some(u) => Ok((t, u)),
            },
        },
    }
}

/// The token of the challenge over HTTP, and where it is triggered.
pub fn read_challenge(authz: &Json) -> (r: Result<(String, String), String>)
    ensures
        pair_outcome(r) == challenge_of(*authz),
{
    if let Some(Json::List(l)) = authz.get("challenges") {
        let n: usize = l.len();
        let mut i: usize = 0;
        while i < n
            invariant
                i <= n,
                n == l@.len(),
                member(*authz, "challenges"@) == Json::List(*l),
                challenge_from(l@, 0) == challenge_from(l@, i as int),
            decreases n - i,
        {
            let matched = match l[i].text_at("type") {
                Some(t) => t.as_str().eq("http-01"),
                None => false,
            };
            if matched {
                return match l[i].text_at("token") {
                    None => Err("ACME challenge missing token".to_owned()),
                    Some(t) => match l[i].text_at("url") {
                        None => Err("ACME challenge missing url".to_owned()),
                        Some(u) => Ok((t, u)),
                    },
                };
            }
            i = i + 1;
        }
    }
    Err("ACME authorization has no http-01 challenge".to_owned())
}

/// What a document holds; nothing where it is none.
pub open spec fn or_null(d: Result<Json, Seq<char>>) -> Json {
    match d {
        Ok(j) => j,
        Err(_) => Json::Null,
    }
}

/// The state that a reply tells, or no words.
pub open spec fn state_of(j: Json) -> Seq<char> {
    match member_text(j, "status"@) {
        Some(s) => s,
        None => ""@,
    }
}

/// A document by its value, or a message.
pub open spec fn document_view(r: Result<Json, String>) -> Result<Json, Seq<char>> {
    match r {
        Ok(j) => Ok(j),
        Err(e) => Err(e@),
    }
}

fn read_document(body: &[u8]) -> (r: Result<Json, String>)
    ensures
        document_view(r) == json_document(body@),
{
    match json_parse(body) {
        Ok(v) => Ok(json_plain(&v)),
        Err(e) => Err(e),
    }
}

// ---------------------------------------------------------------------------
// What requests say
// ---------------------------------------------------------------------------

/// The two coordinates of a public key.
pub struct Jwk {
    /// The first.
    pub x: String,
    /// The second.
    pub y: String,
}

/// The two coordinates of a public key, as text: the key is an uncompressed
/// point.
pub open spec fn coordinates(key: Seq<u8>) -> Option<(Seq<char>, Seq<char>)> {
    if key.len() == 65 && key[0] == 4 {
        Some((base64_url_text(key.subrange(1, 33)), base64_url_text(key.subrange(33, 65))))
    } else {
        None
    }
}

/// The two coordinates of a public key.
pub fn jwk_from_key(key: &[u8]) -> (r: Option<Jwk>)
    ensures
        match r {
            Some(j) => coordinates(key@) == Some((j.x@, j.y@)),
            None => coordinates(key@) is None,
        },
{
    if key.len() != 65 || key[0] != 4 {
        return None;
    }
    let x = base64_url_encode(slice_subrange(key, 1, 33));
    let y = base64_url_encode(slice_subrange(key, 33, 65));
    Some(Jwk { x, y })
}

/// What the thumbprint of a key is taken of.
pub open spec fn canonical_key(x: Seq<char>, y: Seq<char>) -> Seq<char> {
    "{\"crv\":\"P-256\",\"kty\":\"EC\",\"x\":\""@ + x + "\",\"y\":\""@ + y + "\"}"@
}

/// The thumbprint of a key.
pub open spec fn thumbprint(x: Seq<char>, y: Seq<char>) -> Seq<char> {
    base64_url_text(sha256_digest(encode_utf8(canonical_key(x, y))))
}

/// What the thumbprint of a key is taken of.
pub fn thumbprint_input(jwk: &Jwk) -> (r: String)
    ensures
        r@ == canonical_key(jwk.x@, jwk.y@),
{
    let mut s = "{\"crv\":\"P-256\",\"kty\":\"EC\",\"x\":\"".to_owned();
    s.append(jwk.x.as_str());
    s.append("\",\"y\":\"");
    s.append(jwk.y.as_str());
    s.append("\"}");
    s
}

/// The thumbprint of a key.
pub fn jwk_thumbprint(jwk: &Jwk) -> (r: String)
    ensures
        r@ == thumbprint(jwk.x@, jwk.y@),
{
    let bytes = bytes_of(thumbprint_input(jwk).as_str());
    let digest = sha256_of(bytes.as_slice());
    base64_url_encode(digest.as_slice())
}

/// The members of a key.
pub open spec fn key_members(x: Seq<char>, y: Seq<char>) -> Seq<(Seq<char>, Seq<char>)> {
    seq![("kty"@, "EC"@), ("crv"@, "P-256"@), ("x"@, x), ("y"@, y)]
}

/// Who signs a request.
pub enum Signer {
    /// The key itself.
    Key(Seq<char>, Seq<char>),
    /// The account of an address.
    Account(Seq<char>),
}

/// A key that signs a request itself.
pub open spec fn key_signer(key: Seq<u8>) -> Signer {
    match coordinates(key) {
        Some((x, y)) => Signer::Key(x, y),
        None => Signer::Key(Seq::empty(), Seq::empty()),
    }
}

/// What the signature of a request protects.
pub open spec fn protected_members(url: Seq<char>, nonce: Seq<char>, by: Signer) -> Seq<
    (Seq<char>, MemberView),
> {
    seq![
        ("alg"@, MemberView::Text("ES256"@)),
        ("nonce"@, MemberView::Text(nonce)),
        ("url"@, MemberView::Text(url)),
        match by {
            Signer::Account(kid) => ("kid"@, MemberView::Text(kid)),
            Signer::Key(x, y) => ("jwk"@, MemberView::Object(key_members(x, y))),
        },
    ]
}

/// What the signature of a request protects, as text.
pub open spec fn protected_text(url: Seq<char>, nonce: Seq<char>, by: Signer) -> Seq<char> {
    base64_url_text(encode_utf8(json_text(protected_members(url, nonce, by))))
}

/// What a request says, as text.
pub open spec fn payload_text(members: Option<Seq<(Seq<char>, MemberView)>>) -> Seq<char> {
    match members {
        None => Seq::empty(),
        Some(m) => base64_url_text(encode_utf8(json_text(m))),
    }
}

fn base64_url(text: &str) -> (r: String)
    ensures
        r@ == base64_url_text(encode_utf8(text@)),
{
    let bytes = bytes_of(text);
    base64_url_encode(bytes.as_slice())
}

fn push_text(m: &mut Vec<(String, Member)>, name: &str, text: &str)
    ensures
        final(m).deep_view() == old(m).deep_view().push((name@, MemberView::Text(text@))),
{
    let ghost start = m.deep_view();
    m.push((name.to_owned(), Member::Text(text.to_owned())));
    assert(m.deep_view() =~= start.push((name@, MemberView::Text(text@))));
}

fn push_pair(m: &mut Vec<(String, String)>, name: &str, text: &str)
    ensures
        final(m).deep_view() == old(m).deep_view().push((name@, text@)),
{
    let ghost start = m.deep_view();
    m.push((name.to_owned(), text.to_owned()));
    assert(m.deep_view() =~= start.push((name@, text@)));
}

fn protected_start(url: &str, nonce: &str) -> (r: Vec<(String, Member)>)
    ensures
        r.deep_view() == seq![
            ("alg"@, MemberView::Text("ES256"@)),
            ("nonce"@, MemberView::Text(nonce@)),
            ("url"@, MemberView::Text(url@)),
        ],
{
    let mut m: Vec<(String, Member)> = Vec::new();
    assert(m.deep_view() =~= Seq::<(Seq<char>, MemberView)>::empty());
    push_text(&mut m, "alg", "ES256");
    push_text(&mut m, "nonce", nonce);
    push_text(&mut m, "url", url);
    assert(m.deep_view() =~= seq![
        ("alg"@, MemberView::Text("ES256"@)),
        ("nonce"@, MemberView::Text(nonce@)),
        ("url"@, MemberView::Text(url@)),
    ]);
    m
}

fn protected_by_account(url: &str, nonce: &str, kid: &str) -> (r: String)
    ensures
        r@ == protected_text(url@, nonce@, Signer::Account(kid@)),
{
    let mut m = protected_start(url, nonce);
    push_text(&mut m, "kid", kid);
    assert(m.deep_view() =~= protected_members(url@, nonce@, Signer::Account(kid@)));
    base64_url(json_write(&m).as_str())
}

fn protected_by_key(url: &str, nonce: &str, jwk: &Jwk) -> (r: String)
    ensures
        r@ == protected_text(url@, nonce@, Signer::Key(jwk.x@, jwk.y@)),
{
    let mut k: Vec<(String, String)> = Vec::new();
    assert(k.deep_view() =~= Seq::<(Seq<char>, Seq<char>)>::empty());
    push_pair(&mut k, "kty", "EC");
    push_pair(&mut k, "crv", "P-256");
    push_pair(&mut k, "x", jwk.x.as_str());
    push_pair(&mut k, "y", jwk.y.as_str());
    assert(k.deep_view() =~= key_members(jwk.x@, jwk.y@));
    let mut m = protected_start(url, nonce);
    let ghost start = m.deep_view();
    m.push(("jwk".to_owned(), Member::Object(k)));
    assert(m.deep_view() =~= start.push(
        ("jwk"@, MemberView::Object(key_members(jwk.x@, jwk.y@))),
    ));
    assert(m.deep_view() =~= protected_members(url@, nonce@, Signer::Key(jwk.x@, jwk.y@)));
    base64_url(json_write(&m).as_str())
}

/// What is signed of a request.
pub open spec fn signed_text(protected: Seq<char>, payload: Seq<char>) -> Seq<char> {
    protected + "."@ + payload
}

/// The members of a signed request.
pub open spec fn jws_members(protected: Seq<char>, payload: Seq<char>, signature: Seq<u8>) -> Seq<
    (Seq<char>, MemberView),
> {
    seq![
        ("protected"@, MemberView::Text(protected)),
        ("payload"@, MemberView::Text(payload)),
        ("signature"@, MemberView::Text(base64_url_text(signature))),
    ]
}

/// A request that is still to be signed.
#[derive(Debug)]
pub struct Unsigned {
    /// Where it goes.
    pub url: String,
    /// What the signature protects.
    pub protected: String,
    /// What it says.
    pub payload: String,
}

/// A request that is still to be signed.
pub struct UnsignedView {
    pub url: Seq<char>,
    pub protected: Seq<char>,
    pub payload: Seq<char>,
}

impl View for Unsigned {
    type V = UnsignedView;

    open spec fn view(&self) -> UnsignedView {
        UnsignedView { url: self.url@, protected: self.protected@, payload: self.payload@ }
    }
}

impl Unsigned {
    /// What is to be signed.
    pub fn signing_input(&self) -> (r: String)
        ensures
            r@ == signed_text(self@.protected, self@.payload),
    {
        let mut s = self.protected.clone();
        s.append(".");
        s.append(self.payload.as_str());
        s
    }

    /// The body of the request, with its signature.
    pub fn body(&self, signature: &[u8]) -> (r: String)
        ensures
            r@ == json_text(jws_members(self@.protected, self@.payload, signature@)),
    {
        let mut m: Vec<(String, Member)> = Vec::new();
        assert(m.deep_view() =~= Seq::<(Seq<char>, MemberView)>::empty());
        push_text(&mut m, "protected", self.protected.as_str());
        push_text(&mut m, "payload", self.payload.as_str());
        push_text(&mut m, "signature", base64_url_encode(signature).as_str());
        assert(m.deep_view() =~= jws_members(self@.protected, self@.payload, signature@));
        json_write(&m)
    }
}

// ---------------------------------------------------------------------------
// Keys and signatures
// ---------------------------------------------------------------------------

/// What is wrong where no account key can be made.
pub const NO_ACCOUNT_KEY: &'static str = "ACME account key generation failed";

/// What is wrong where an account key cannot be used.
pub const BAD_ACCOUNT_KEY: &'static str = "ACME account key load failed";

/// What is wrong where a request cannot be signed.
pub const NOT_SIGNED: &'static str = "JWS signing failed";

/// The key of an account, given a private key that was made, if one was, and the
/// public key that was found to belong to it, if one was.
pub open spec fn account_of(private: Option<Seq<u8>>, public: Option<Seq<u8>>) -> Result<
    (Seq<u8>, Seq<u8>),
    Seq<char>,
> {
    match (private, public) {
        (None, _) => Err(NO_ACCOUNT_KEY@),
        (Some(_), None) => Err(BAD_ACCOUNT_KEY@),
        (Some(k), Some(p)) => Ok((k, p)),
    }
}

/// Two lists of bytes or a message, by their values.
pub open spec fn keys_outcome(r: Result<(Vec<u8>, Vec<u8>), String>) -> Result<
    (Seq<u8>, Seq<u8>),
    Seq<char>,
> {
    match r {
        Ok((k, p)) => Ok((k@, p@)),
        Err(e) => Err(e@),
    }
}

/// The key of an account, given a private key that was made, if one was, and the
/// public key that was found to belong to it, if one was.
pub fn account_from(private: Option<Vec<u8>>, public: Option<Vec<u8>>) -> (r: Result<
    (Vec<u8>, Vec<u8>),
    String,
>)
    ensures
        keys_outcome(r) == account_of(private.deep_view(), public.deep_view()),
{
    match (private, public) {
        (None, _) => Err(NO_ACCOUNT_KEY.to_owned()),
        (Some(_), None) => Err(BAD_ACCOUNT_KEY.to_owned()),
        (Some(k), Some(p)) => {
            assert(k.deep_view() =~= k@);
            assert(p.deep_view() =~= p@);
            Ok((k, p))
        },
    }
}

/// Makes the key of an account: the private one, and the public one that belongs
/// to it. Only a lack of randomness stands in the way.
pub fn account_key() -> (r: Result<(Vec<u8>, Vec<u8>), String>)
    ensures
        match r {
            Ok((private, public)) => ecdsa_point(private@) == Some(public@),
            Err(e) => e@ == NO_ACCOUNT_KEY@ || e@ == BAD_ACCOUNT_KEY@,
        },
{
    match ecdsa_generate() {
        None => account_from(None, None),
        Some(private) => {
            let public = ecdsa_public_key(private.as_slice());
            proof {
                if public is Some {
                    assert(public->0.deep_view() =~= public->0@);
                }
                assert(private.deep_view() =~= private@);
            }
            account_from(Some(private), public)
        },
    }
}

impl Unsigned {
    /// The body of the request, signed with a private key. Which of the signatures
    /// that answer the public key it holds is left to chance.
    pub fn sign(&self, private: &[u8]) -> (r: Result<String, String>)
        ensures
            match r {
                Ok(body) => exists|signature: Seq<u8>|
                    {
                        &&& body@ == json_text(
                            #[trigger] jws_members(self@.protected, self@.payload, signature),
                        )
                        &&& match ecdsa_point(private@) {
                            Some(public) => ecdsa_verifies(
                                public,
                                encode_utf8(signed_text(self@.protected, self@.payload)),
                                signature,
                            ),
                            None => false,
                        }
                    },
                Err(e) => e@ == NOT_SIGNED@,
            },
    {
        let input = self.signing_input();
        let data = bytes_of(input.as_str());
        let signature = ecdsa_sign(private, data.as_slice());
        proof {
            if signature is Some {
                let s = signature->0@;
                assert(signature->0.deep_view() =~= s);
                assert(jws_members(self@.protected, self@.payload, s).len() >= 0);
            }
        }
        self.signed(signature)
    }

    /// The body of the request with a signature, if there is one.
    pub fn signed(&self, signature: Option<Vec<u8>>) -> (r: Result<String, String>)
        ensures
            outcome(r) == signed_body(self@, signature.deep_view()),
    {
        match signature {
            Some(s) => {
                assert(s.deep_view() =~= s@);
                Ok(self.body(s.as_slice()))
            },
            None => Err(NOT_SIGNED.to_owned()),
        }
    }
}

/// The body of a request with a signature, if there is one.
pub open spec fn signed_body(u: UnsignedView, signature: Option<Seq<u8>>) -> Result<
    Seq<char>,
    Seq<char>,
> {
    match signature {
        Some(s) => Ok(json_text(jws_members(u.protected, u.payload, s))),
        None => Err(NOT_SIGNED@),
    }
}

/// What is said where no request for a certificate could be made.
pub open spec fn no_request(f: CertFault) -> Seq<char> {
    match f {
        CertFault::Name(e) => "CSR params: "@ + e@,
        CertFault::Key(e) => "cert key generation: "@ + e@,
        CertFault::Made(e) => "CSR generation: "@ + e@,
    }
}

/// What is said where no request for a certificate could be made.
pub fn request_failure(fault: &CertFault) -> (r: String)
    ensures
        r@ == no_request(*fault),
{
    match fault {
        CertFault::Name(e) => with_cause("CSR params: ", e.as_str()),
        CertFault::Key(e) => with_cause("cert key generation: ", e.as_str()),
        CertFault::Made(e) => with_cause("CSR generation: ", e.as_str()),
    }
}

/// Makes a request for a certificate for a name, with the key of the certificate
/// as PEM text. A name that is not ASCII is refused; with another one, only a lack
/// of randomness stands in the way.
pub fn certificate_request(fqdn: &str) -> (r: Result<(Vec<u8>, String), String>)
    ensures
        match r {
            Ok((request, key)) => {
                &&& is_ascii_text(fqdn@)
                &&& requested_names(request@) == host_names(fqdn@)
                &&& holds_key_for(encode_utf8(key@), requested_key(request@))
            },
            Err(e) => exists|f: CertFault| #[trigger]
                no_request(f) == e@ && fault_fits(f, fqdn@),
        },
{
    let fault = match certificate_params(fqdn) {
        Err(e) => CertFault::Name(e),
        Ok(params) => match certificate_key() {
            Err(e) => CertFault::Key(e),
            Ok(key) => match certificate_request_der(&params, &key) {
                Err(e) => CertFault::Made(e),
                Ok(der) => return Ok((der, certificate_key_pem(&key))),
            },
        },
    };
    Err(request_failure(&fault))
}

// ---------------------------------------------------------------------------
// The order of requests
// ---------------------------------------------------------------------------

/// How far an order has come.
#[derive(Debug, Clone, Copy, PartialEq, Eq, Structural)]
pub enum Phase {
    /// The services are asked for.
    Directory,
    /// A first nonce is asked for.
    Nonce,
    /// An account is made.
    Account,
    /// The order is placed.
    Order,
    /// The challenge is asked for.
    Authorization,
    /// The challenge is to be served, and then triggered.
    Trigger,
    /// The state of the authorization is asked for, again and again.
    Poll,
    /// A certificate request is to be made, and then sent.
    Finalize,
    /// The state of the order is asked for, again and again.
    Wait,
    /// The certificate is fetched.
    Download,
    /// The certificate is there.
    Issued,
}

/// An order of a certificate.
#[derive(Debug)]
pub struct Order {
    /// How far it has come.
    pub phase: Phase,
    /// The name that the certificate is for.
    pub fqdn: String,
    /// The public key of the account.
    pub key: Vec<u8>,
    /// The service for nonces.
    pub new_nonce: String,
    /// The service for accounts.
    pub new_account: String,
    /// The service for orders.
    pub new_order: String,
    /// The nonce for the next request.
    pub nonce: String,
    /// Where the order is authorized.
    pub authorization: String,
    /// Where it is finalized.
    pub finalize: String,
    /// The token of the challenge.
    pub token: String,
    /// Where the challenge is triggered.
    pub challenge: String,
    /// How often the authority may still be asked for the state.
    pub polls: u32,
    /// The state of the authorization that was told last.
    pub state: String,
    /// Where the certificate is.
    pub certificate: String,
    /// The certificate.
    pub pem: Vec<u8>,
}

/// An order of a certificate.
#[verifier::ext_equal]
pub struct OrderView {
    pub phase: Phase,
    pub fqdn: Seq<char>,
    pub key: Seq<u8>,
    pub new_nonce: Seq<char>,
    pub new_account: Seq<char>,
    pub new_order: Seq<char>,
    pub nonce: Seq<char>,
    pub authorization: Seq<char>,
    pub finalize: Seq<char>,
    pub token: Seq<char>,
    pub challenge: Seq<char>,
    pub polls: u32,
    pub state: Seq<char>,
    pub certificate: Seq<char>,
    pub pem: Seq<u8>,
}

impl View for Order {
    type V = OrderView;

    open spec fn view(&self) -> OrderView {
        OrderView {
            phase: self.phase,
            fqdn: self.fqdn@,
            key: self.key@,
            new_nonce: self.new_nonce@,
            new_account: self.new_account@,
            new_order: self.new_order@,
            nonce: self.nonce@,
            authorization: self.authorization@,
            finalize: self.finalize@,
            token: self.token@,
            challenge: self.challenge@,
            polls: self.polls,
            state: self.state@,
            certificate: self.certificate@,
            pem: self.pem@,
        }
    }
}

/// Whether a status is one of success.
pub open spec fn succeeded(status: u16) -> bool {
    200 <= status < 300
}

/// A status and a body in a message.
pub open spec fn refusal(what: Seq<char>, status: u16, body: Seq<u8>) -> Seq<char> {
    what + " failed: HTTP "@ + decimal(status as int) + " "@ + lossy_text(body)
}

/// The nonce after a reply.
pub open spec fn next_nonce(nonce: Option<Seq<char>>, last: Seq<char>) -> Seq<char> {
    match nonce {
        Some(n) => n,
        None => last,
    }
}

/// An order after the list of services.
pub open spec fn after_directory(o: OrderView, status: u16, body: Seq<u8>) -> Result<
    OrderView,
    Seq<char>,
> {
    if !succeeded(status) {
        Err("GET "@ + DIRECTORY_URL@ + " failed: HTTP "@ + decimal(status as int))
    } else {
        match json_document(body) {
            Err(e) => Err("invalid JSON from "@ + DIRECTORY_URL@ + ": "@ + e),
            Ok(d) => match service(d, "newNonce"@) {
                Err(e) => Err(e),
                Ok(nonce) => match service(d, "newAccount"@) {
                    Err(e) => Err(e),
                    Ok(account) => match service(d, "newOrder"@) {
                        Err(e) => Err(e),
                        Ok(order) => Ok(
                            OrderView {
                                phase: Phase::Nonce,
                                new_nonce: nonce,
                                new_account: account,
                                new_order: order,
                                ..o
                            },
                        ),
                    },
                },
            },
        }
    }
}

/// An order after the first nonce.
pub open spec fn after_nonce(o: OrderView, status: u16, nonce: Option<Seq<char>>) -> Result<
    OrderView,
    Seq<char>,
> {
    if !succeeded(status) {
        Err("ACME newNonce failed"@)
    } else {
        match nonce {
            None => Err("ACME newNonce response missing Replay-Nonce"@),
            Some(n) => if coordinates(o.key) is None {
                Err("unexpected ECDSA public key encoding"@)
            } else {
                Ok(OrderView { phase: Phase::Account, nonce: n, ..o })
            },
        }
    }
}

/// An order after it was placed.
pub open spec fn after_order(
    o: OrderView,
    status: u16,
    nonce: Option<Seq<char>>,
    body: Seq<u8>,
) -> Result<OrderView, Seq<char>> {
    if !succeeded(status) {
        Err(refusal("ACME newOrder"@, status, body))
    } else {
        match json_document(body) {
            Err(e) => Err("ACME newOrder response: "@ + e),
            Ok(d) => match order_urls(d) {
                Err(e) => Err(e),
                Ok(u) => Ok(
                    OrderView {
                        phase: Phase::Authorization,
                        nonce: next_nonce(nonce, o.nonce),
                        authorization: u.0,
                        finalize: u.1,
                        ..o
                    },
                ),
            },
        }
    }
}

/// An order after its challenge.
pub open spec fn after_authorization(
    o: OrderView,
    status: u16,
    nonce: Option<Seq<char>>,
    body: Seq<u8>,
) -> Result<OrderView, Seq<char>> {
    if !succeeded(status) {
        Err(refusal("ACME authorization fetch"@, status, body))
    } else {
        match json_document(body) {
            Err(e) => Err("ACME authorization response: "@ + e),
            Ok(d) => match challenge_of(d) {
                Err(e) => Err(e),
                Ok(c) => Ok(
                    OrderView {
                        phase: Phase::Trigger,
                        nonce: next_nonce(nonce, o.nonce),
                        token: c.0,
                        challenge: c.1,
                        ..o
                    },
                ),
            },
        }
    }
}

/// What an authorization that did not succeed is reported as.
pub open spec fn not_valid(state: Seq<char>) -> Seq<char> {
    "ACME authorization did not become valid (status: "@ + state + ")"@
}

/// An order after its authorization was asked for. The state counts that the
/// last reply of success told.
pub open spec fn after_poll(
    o: OrderView,
    status: u16,
    nonce: Option<Seq<char>>,
    body: Seq<u8>,
) -> Result<OrderView, Seq<char>> {
    let told = if succeeded(status) {
        state_of(or_null(json_document(body)))
    } else {
        o.state
    };
    let n = next_nonce(nonce, o.nonce);
    if succeeded(status) && told == "valid"@ {
        Ok(OrderView { phase: Phase::Finalize, nonce: n, state: told, ..o })
    } else if (succeeded(status) && told == "invalid"@) || o.polls <= 1 {
        Err(not_valid(told))
    } else {
        Ok(OrderView { nonce: n, state: told, polls: (o.polls - 1) as u32, ..o })
    }
}

/// An order whose state a reply tells: the certificate is there, or the state is
/// asked for once more.
pub open spec fn with_state(o: OrderView, body: Seq<u8>) -> Result<OrderView, Seq<char>> {
    if o.polls == 0 {
        Err("ACME order never produced a certificate URL"@)
    } else {
        match member_text(or_null(json_document(body)), "certificate"@) {
            Some(u) => if u.len() == 0 {
                Err("ACME order never produced a certificate URL"@)
            } else {
                Ok(OrderView { phase: Phase::Download, certificate: u, ..o })
            },
            None => Ok(OrderView { phase: Phase::Wait, polls: (o.polls - 1) as u32, ..o }),
        }
    }
}

/// An order after a reply to what it asked for, or what went wrong.
pub open spec fn after_reply(
    o: OrderView,
    status: u16,
    nonce: Option<Seq<char>>,
    body: Seq<u8>,
) -> Result<OrderView, Seq<char>> {
    match o.phase {
        Phase::Directory => after_directory(o, status, body),
        Phase::Nonce => after_nonce(o, status, nonce),
        Phase::Account => if succeeded(status) {
            Ok(OrderView { phase: Phase::Order, nonce: next_nonce(nonce, o.nonce), ..o })
        } else {
            Err(refusal("ACME newAccount"@, status, body))
        },
        Phase::Order => after_order(o, status, nonce, body),
        Phase::Authorization => after_authorization(o, status, nonce, body),
        Phase::Trigger => if succeeded(status) {
            Ok(
                OrderView {
                    phase: Phase::Poll,
                    nonce: next_nonce(nonce, o.nonce),
                    polls: POLLS,
                    state: ""@,
                    ..o
                },
            )
        } else {
            Err(refusal("ACME challenge trigger"@, status, body))
        },
        Phase::Poll => after_poll(o, status, nonce, body),
        Phase::Finalize => if succeeded(status) {
            with_state(
                OrderView { nonce: next_nonce(nonce, o.nonce), polls: POLLS, ..o },
                body,
            )
        } else {
            Err(refusal("ACME finalize"@, status, body))
        },
        Phase::Wait => with_state(OrderView { nonce: next_nonce(nonce, o.nonce), ..o }, body),
        Phase::Download => if succeeded(status) {
            Ok(OrderView { phase: Phase::Issued, pem: body, ..o })
        } else {
            Err("ACME certificate download failed: HTTP "@ + decimal(status as int))
        },
        Phase::Issued => Ok(o),
    }
}

/// Whether the key of an order is known to be of the right form where that is
/// needed.
pub open spec fn is_sound(o: OrderView) -> bool {
    o.phase == Phase::Directory || o.phase == Phase::Nonce || coordinates(o.key) is Some
}

/// A request of the account of an order.
pub open spec fn request_of(
    o: OrderView,
    url: Seq<char>,
    payload: Option<Seq<(Seq<char>, MemberView)>>,
) -> UnsignedView {
    UnsignedView {
        url,
        protected: protected_text(url, o.nonce, Signer::Account(o.new_account)),
        payload: payload_text(payload),
    }
}

/// What is to be done next for an order.
pub enum AskView {
    Get(Seq<char>),
    Head(Seq<char>),
    Send(UnsignedView),
    Serve(Seq<char>, Seq<char>, UnsignedView),
    SendLater(UnsignedView),
    MakeRequest,
    Done(Seq<u8>),
}

/// What is to be done next for an order.
#[derive(Debug)]
pub enum Ask {
    /// Fetching an address.
    Get(String),
    /// Fetching the header fields of an address.
    Head(String),
    /// Sending a signed request.
    Send(Unsigned),
    /// Serving a text at the path of a token, and then sending a signed request.
    Serve(String, String, Unsigned),
    /// Sending a signed request after a while.
    SendLater(Unsigned),
    /// Making a certificate request, and sending it.
    MakeRequest,
    /// Storing the certificate.
    Done(Vec<u8>),
}

impl View for Ask {
    type V = AskView;

    open spec fn view(&self) -> AskView {
        match self {
            Ask::Get(u) => AskView::Get(u@),
            Ask::Head(u) => AskView::Head(u@),
            Ask::Send(q) => AskView::Send(q@),
            Ask::Serve(t, k, q) => AskView::Serve(t@, k@, q@),
            Ask::SendLater(q) => AskView::SendLater(q@),
            Ask::MakeRequest => AskView::MakeRequest,
            Ask::Done(b) => AskView::Done(b@),
        }
    }
}

/// What proves the control over a name: the token and the key.
pub open spec fn key_authorization(token: Seq<char>, key: Seq<u8>) -> Seq<char> {
    match coordinates(key) {
        Some((x, y)) => token + "."@ + thumbprint(x, y),
        None => token + "."@,
    }
}

/// Where the state of an order is asked for.
pub open spec fn state_url(finalize: Seq<char>) -> Seq<char> {
    replace_all(finalize, "/finalize/"@, "/order/"@)
}

/// What is to be done next for an order.
pub open spec fn ask(o: OrderView) -> AskView {
    match o.phase {
        Phase::Directory => AskView::Get(DIRECTORY_URL@),
        Phase::Nonce => AskView::Head(o.new_nonce),
        Phase::Account => AskView::Send(
            UnsignedView {
                url: o.new_account,
                protected: protected_text(o.new_account, o.nonce, key_signer(o.key)),
                payload: payload_text(
                    Some(seq![("termsOfServiceAgreed"@, MemberView::Flag(true))]),
                ),
            },
        ),
        Phase::Order => AskView::Send(
            request_of(
                o,
                o.new_order,
                Some(
                    seq![
                        (
                            "identifiers"@,
                            MemberView::Objects(seq![seq![("type"@, "dns"@), ("value"@, o.fqdn)]]),
                        ),
                    ],
                ),
            ),
        ),
        Phase::Authorization => AskView::Send(request_of(o, o.authorization, None)),
        Phase::Trigger => AskView::Serve(
            o.token,
            key_authorization(o.token, o.key),
            request_of(o, o.challenge, Some(Seq::empty())),
        ),
        Phase::Poll => AskView::SendLater(request_of(o, o.authorization, None)),
        Phase::Finalize => AskView::MakeRequest,
        Phase::Wait => AskView::SendLater(request_of(o, state_url(o.finalize), None)),
        Phase::Download => AskView::Send(request_of(o, o.certificate, None)),
        Phase::Issued => AskView::Done(o.pem),
    }
}

fn success(status: u16) -> (r: bool)
    ensures
        r == succeeded(status),
{
    200 <= status && status < 300
}

fn refused(what: &str, status: u16, body: &[u8]) -> (r: String)
    ensures
        r@ == refusal(what@, status, body@),
{
    let mut s = what.to_owned();
    s.append(" failed: HTTP ");
    s.append(decimal_of(status as u64).as_str());
    s.append(" ");
    s.append(lossy_string(body).as_str());
    s
}

/// Whether what became of an order is what should.
pub open spec fn has_become(
    from: OrderView,
    to: OrderView,
    r: Result<(), String>,
    expected: Result<OrderView, Seq<char>>,
) -> bool {
    match expected {
        Ok(o) => r is Ok && to == o,
        Err(e) => r is Err && r->Err_0@ == e && to == from,
    }
}

impl Order {
    /// An order of a certificate for a name, with the public key of an account.
    pub fn new(fqdn: &str, key: &[u8]) -> (r: Self)
        ensures
            r@ == (OrderView {
                phase: Phase::Directory,
                fqdn: fqdn@,
                key: key@,
                new_nonce: ""@,
                new_account: ""@,
                new_order: ""@,
                nonce: ""@,
                authorization: ""@,
                finalize: ""@,
                token: ""@,
                challenge: ""@,
                polls: 0,
                state: ""@,
                certificate: ""@,
                pem: Seq::empty(),
            }),
            is_sound(r@),
    {
        let n: usize = key.len();
        let copy = copy_bytes(key, 0, n);
        assert(copy@ =~= key@);
        let pem: Vec<u8> = Vec::new();
        assert(pem@ =~= Seq::<u8>::empty());
        Order {
            phase: Phase::Directory,
            fqdn: fqdn.to_owned(),
            key: copy,
            new_nonce: "".to_owned(),
            new_account: "".to_owned(),
            new_order: "".to_owned(),
            nonce: "".to_owned(),
            authorization: "".to_owned(),
            finalize: "".to_owned(),
            token: "".to_owned(),
            challenge: "".to_owned(),
            polls: 0,
            state: "".to_owned(),
            certificate: "".to_owned(),
            pem,
        }
    }

    fn request(&self, url: &str, payload: String) -> (r: Unsigned)
        ensures
            r@ == (UnsignedView {
                url: url@,
                protected: protected_text(url@, self@.nonce, Signer::Account(self@.new_account)),
                payload: payload@,
            }),
    {
        let protected = protected_by_account(url, self.nonce.as_str(), self.new_account.as_str());
        Unsigned { url: url.to_owned(), protected, payload }
    }

    fn bare_request(&self, url: &str) -> (r: Unsigned)
        ensures
            r@ == request_of(self@, url@, None),
    {
        let empty = String::new();
        assert(empty@ =~= Seq::<char>::empty());
        self.request(url, empty)
    }

    /// The request that ends an order, with a certificate request.
    pub fn finalize_request(&self, csr: &[u8]) -> (r: Unsigned)
        ensures
            r@ == request_of(
                self@,
                self@.finalize,
                Some(seq![("csr"@, MemberView::Text(base64_url_text(csr@)))]),
            ),
    {
        let mut m: Vec<(String, Member)> = Vec::new();
        assert(m.deep_view() =~= Seq::<(Seq<char>, MemberView)>::empty());
        push_text(&mut m, "csr", base64_url_encode(csr).as_str());
        assert(m.deep_view() =~= seq![("csr"@, MemberView::Text(base64_url_text(csr@)))]);
        let payload = base64_url(json_write(&m).as_str());
        self.request(self.finalize.as_str(), payload)
    }

    fn account_request(&self) -> (r: Unsigned)
        requires
            coordinates(self@.key) is Some,
        ensures
            r@ == ask(OrderView { phase: Phase::Account, ..self@ })->Send_0,
    {
        let mut m: Vec<(String, Member)> = Vec::new();
        let ghost start = m.deep_view();
        m.push(("termsOfServiceAgreed".to_owned(), Member::Flag(true)));
        assert(m.deep_view() =~= seq![("termsOfServiceAgreed"@, MemberView::Flag(true))]);
        let payload = base64_url(json_write(&m).as_str());
        let url = self.new_account.as_str();
        match jwk_from_key(self.key.as_slice()) {
            Some(jwk) => Unsigned {
                url: url.to_owned(),
                protected: protected_by_key(url, self.nonce.as_str(), &jwk),
                payload,
            },
            None => self.bare_request(url),
        }
    }

    fn order_request(&self) -> (r: Unsigned)
        ensures
            r@ == ask(OrderView { phase: Phase::Order, ..self@ })->Send_0,
    {
        let mut name: Vec<(String, String)> = Vec::new();
        assert(name.deep_view() =~= Seq::<(Seq<char>, Seq<char>)>::empty());
        push_pair(&mut name, "type", "dns");
        push_pair(&mut name, "value", self.fqdn.as_str());
        let ghost one = seq![("type"@, "dns"@), ("value"@, self@.fqdn)];
        assert(name.deep_view() =~= one);
        let mut names: Vec<Vec<(String, String)>> = Vec::new();
        names.push(name);
        assert(names.deep_view() =~= seq![one]);
        let mut m: Vec<(String, Member)> = Vec::new();
        m.push(("identifiers".to_owned(), Member::Objects(names)));
        assert(m.deep_view() =~= seq![("identifiers"@, MemberView::Objects(seq![one]))]);
        let payload = base64_url(json_write(&m).as_str());
        self.request(self.new_order.as_str(), payload)
    }

    fn trigger_request(&self) -> (r: Unsigned)
        ensures
            r@ == request_of(self@, self@.challenge, Some(Seq::empty())),
    {
        let m: Vec<(String, Member)> = Vec::new();
        assert(m.deep_view() =~= Seq::<(Seq<char>, MemberView)>::empty());
        let payload = base64_url(json_write(&m).as_str());
        self.request(self.challenge.as_str(), payload)
    }

    fn proof_of_control(&self) -> (r: String)
        requires
            coordinates(self@.key) is Some,
        ensures
            r@ == key_authorization(self@.token, self@.key),
    {
        let mut s = self.token.clone();
        s.append(".");
        match jwk_from_key(self.key.as_slice()) {
            Some(jwk) => {
                s.append(jwk_thumbprint(&jwk).as_str());
            },
            None => {},
        }
        s
    }

    /// What is to be done next.
    pub fn ask(&self) -> (r: Ask)
        requires
            is_sound(self@),
        ensures
            r@ == ask(self@),
    {
        match self.phase {
            Phase::Directory => Ask::Get(DIRECTORY_URL.to_owned()),
            Phase::Nonce => Ask::Head(self.new_nonce.clone()),
            Phase::Account => Ask::Send(self.account_request()),
            Phase::Order => Ask::Send(self.order_request()),
            Phase::Authorization => Ask::Send(self.bare_request(self.authorization.as_str())),
            Phase::Trigger => Ask::Serve(
                self.token.clone(),
                self.proof_of_control(),
                self.trigger_request(),
            ),
            Phase::Poll => Ask::SendLater(self.bare_request(self.authorization.as_str())),
            Phase::Finalize => Ask::MakeRequest,
            Phase::Wait => {
                proof {
                    reveal_strlit("/finalize/");
                }
                let url = replaced_all(self.finalize.as_str(), "/finalize/", "/order/");
                Ask::SendLater(self.bare_request(url.as_str()))
            },
            Phase::Download => Ask::Send(self.bare_request(self.certificate.as_str())),
            Phase::Issued => {
                let n: usize = self.pem.len();
                let pem = copy_bytes(self.pem.as_slice(), 0, n);
                assert(pem@ =~= self.pem@);
                Ask::Done(pem)
            },
        }
    }

    fn take_nonce(&mut self, nonce: Option<&str>)
        ensures
            final(self)@ == (OrderView {
                nonce: next_nonce(nonce.deep_view(), old(self)@.nonce),
                ..old(self)@
            }),
    {
        if let Some(n) = nonce {
            self.nonce = n.to_owned();
        }
    }

    fn take_directory(&mut self, status: u16, body: &[u8]) -> (r: Result<(), String>)
        ensures
            has_become(old(self)@, final(self)@, r, after_directory(old(self)@, status, body@)),
    {
        if !success(status) {
            let mut e = "GET ".to_owned();
            e.append(DIRECTORY_URL);
            e.append(" failed: HTTP ");
            e.append(decimal_of(status as u64).as_str());
            return Err(e);
        }
        let d = match read_document(body) {
            Err(err) => {
                let mut e = "invalid JSON from ".to_owned();
                e.append(DIRECTORY_URL);
                e.append(": ");
                e.append(err.as_str());
                return Err(e);
            },
            Ok(d) => d,
        };
        let nonce = match url_str(&d, "newNonce") {
            Err(e) => {
                return Err(e);
            },
            Ok(u) => u,
        };
        let account = match url_str(&d, "newAccount") {
            Err(e) => {
                return Err(e);
            },
            Ok(u) => u,
        };
        let order = match url_str(&d, "newOrder") {
            Err(e) => {
                return Err(e);
            },
            Ok(u) => u,
        };
        self.new_nonce = nonce;
        self.new_account = account;
        self.new_order = order;
        self.phase = Phase::Nonce;
        Ok(())
    }

    fn take_first_nonce(&mut self, status: u16, nonce: Option<&str>) -> (r: Result<(), String>)
        ensures
            has_become(
                old(self)@,
                final(self)@,
                r,
                after_nonce(old(self)@, status, nonce.deep_view()),
            ),
    {
        if !success(status) {
            return Err("ACME newNonce failed".to_owned());
        }
        match nonce {
            None => Err("ACME newNonce response missing Replay-Nonce".to_owned()),
            Some(n) => {
                if jwk_from_key(self.key.as_slice()).is_none() {
                    return Err("unexpected ECDSA public key encoding".to_owned());
                }
                self.nonce = n.to_owned();
                self.phase = Phase::Account;
                Ok(())
            },
        }
    }

    fn take_order(&mut self, status: u16, nonce: Option<&str>, body: &[u8]) -> (r: Result<
        (),
        String,
    >)
        ensures
            has_become(
                old(self)@,
                final(self)@,
                r,
                after_order(old(self)@, status, nonce.deep_view(), body@),
            ),
    {
        if !success(status) {
            return Err(refused("ACME newOrder", status, body));
        }
        let d = match read_document(body) {
            Err(err) => {
                let mut e = "ACME newOrder response: ".to_owned();
                e.append(err.as_str());
                return Err(e);
            },
            Ok(d) => d,
        };
        match read_order(&d) {
            Err(e) => Err(e),
            Ok((a, f)) => {
                self.take_nonce(nonce);
                self.authorization = a;
                self.finalize = f;
                self.phase = Phase::Authorization;
                Ok(())
            },
        }
    }

    fn take_authorization(&mut self, status: u16, nonce: Option<&str>, body: &[u8]) -> (r: Result<
        (),
        String,
    >)
        ensures
            has_become(
                old(self)@,
                final(self)@,
                r,
                after_authorization(old(self)@, status, nonce.deep_view(), body@),
            ),
    {
        if !success(status) {
            return Err(refused("ACME authorization fetch", status, body));
        }
        let d = match read_document(body) {
            Err(err) => {
                let mut e = "ACME authorization response: ".to_owned();
                e.append(err.as_str());
                return Err(e);
            },
            Ok(d) => d,
        };
        match read_challenge(&d) {
            Err(e) => Err(e),
            Ok((t, u)) => {
                self.take_nonce(nonce);
                self.token = t;
                self.challenge = u;
                self.phase = Phase::Trigger;
                Ok(())
            },
        }
    }

    fn take_poll(&mut self, status: u16, nonce: Option<&str>, body: &[u8]) -> (r: Result<
        (),
        String,
    >)
        ensures
            has_become(
                old(self)@,
                final(self)@,
                r,
                after_poll(old(self)@, status, nonce.deep_view(), body@),
            ),
    {
        let good = success(status);
        let told = if good {
            match read_document(body) {
                Ok(d) => match d.text_at("status") {
                    Some(s) => s,
                    None => "".to_owned(),
                },
                Err(_) => "".to_owned(),
            }
        } else {
            self.state.clone()
        };
        if good && told.as_str().eq("valid") {
            self.take_nonce(nonce);
            self.state = told;
            self.phase = Phase::Finalize;
            return Ok(());
        }
        if (good && told.as_str().eq("invalid")) || self.polls <= 1 {
            let mut e = "ACME authorization did not become valid (status: ".to_owned();
            e.append(told.as_str());
            e.append(")");
            return Err(e);
        }
        self.take_nonce(nonce);
        self.state = told;
        self.polls = self.polls - 1;
        Ok(())
    }

    fn take_state(&mut self, polls: u32, nonce: Option<&str>, body: &[u8]) -> (r: Result<
        (),
        String,
    >)
        ensures
            has_become(
                old(self)@,
                final(self)@,
                r,
                with_state(
                    OrderView {
                        nonce: next_nonce(nonce.deep_view(), old(self)@.nonce),
                        polls,
                        ..old(self)@
                    },
                    body@,
                ),
            ),
    {
        if polls == 0 {
            return Err("ACME order never produced a certificate URL".to_owned());
        }
        let url = match read_document(body) {
            Ok(d) => d.text_at("certificate"),
            Err(_) => None,
        };
        match url {
            Some(u) => {
                if u.as_str().is_empty() {
                    return Err("ACME order never produced a certificate URL".to_owned());
                }
                self.take_nonce(nonce);
                self.polls = polls;
                self.certificate = u;
                self.phase = Phase::Download;
            },
            None => {
                self.take_nonce(nonce);
                self.polls = polls - 1;
                self.phase = Phase::Wait;
            },
        }
        Ok(())
    }

    /// Takes the reply to what was asked for: its status, the nonce that it
    /// brought and its body. Otherwise what went wrong; the order stays as it
    /// was.
    pub fn reply(&mut self, status: u16, nonce: Option<&str>, body: &[u8]) -> (r: Result<
        (),
        String,
    >)
        requires
            is_sound(old(self)@),
        ensures
            has_become(
                old(self)@,
                final(self)@,
                r,
                after_reply(old(self)@, status, nonce.deep_view(), body@),
            ),
            is_sound(final(self)@),
    {
        match self.phase {
            Phase::Directory => self.take_directory(status, body),
            Phase::Nonce => self.take_first_nonce(status, nonce),
            Phase::Account => {
                if !success(status) {
                    return Err(refused("ACME newAccount", status, body));
                }
                self.take_nonce(nonce);
                self.phase = Phase::Order;
                Ok(())
            },
            Phase::Order => self.take_order(status, nonce, body),
            Phase::Authorization => self.take_authorization(status, nonce, body),
            Phase::Trigger => {
                if !success(status) {
                    return Err(refused("ACME challenge trigger", status, body));
                }
                self.take_nonce(nonce);
                self.polls = POLLS;
                self.state = "".to_owned();
                self.phase = Phase::Poll;
                Ok(())
            },
            Phase::Poll => self.take_poll(status, nonce, body),
            Phase::Finalize => {
                if !success(status) {
                    return Err(refused("ACME finalize", status, body));
                }
                self.take_state(POLLS, nonce, body)
            },
            Phase::Wait => {
                let polls: u32 = self.polls;
                self.take_state(polls, nonce, body)
            },
            Phase::Download => {
                if !success(status) {
                    let mut e = "ACME certificate download failed: HTTP ".to_owned();
                    e.append(decimal_of(status as u64).as_str());
                    return Err(e);
                }
                let n: usize = body.len();
                self.pem = copy_bytes(body, 0, n);
                assert(self.pem@ =~= body@);
                self.phase = Phase::Issued;
                Ok(())
            },
            Phase::Issued => Ok(()),
        }
    }
}

// ---------------------------------------------------------------------------
// The challenge
// ---------------------------------------------------------------------------

/// The path at which the authority looks for a token.
pub open spec fn challenge_path(token: Seq<char>) -> Seq<char> {
    "/.well-known/acme-challenge/"@ + token
}

/// Whether the first line of a request names the path of a token.
pub open spec fn asks_for_token(request: Seq<char>, token: Seq<char>) -> bool {
    lines(request).len() > 0 && contains(lines(request)[0], challenge_path(token))
}

/// The reply to a request while a challenge is served.
pub open spec fn challenge_reply(request: Seq<char>, token: Seq<char>, proof_text: Seq<char>) -> Seq<
    char,
> {
    if asks_for_token(request, token) {
        "HTTP/1.1 200 OK\r\nContent-Type: text/plain\r\nContent-Length: "@ + decimal(
            encode_utf8(proof_text).len() as int,
        ) + "\r\nConnection: close\r\n\r\n"@ + proof_text
    } else {
        "HTTP/1.1 404 Not Found\r\nContent-Length: 0\r\nConnection: close\r\n\r\n"@
    }
}

/// The reply to a request, of which the first bytes came, while a challenge is
/// served.
pub fn respond_challenge(bytes: &[u8], token: &str, key_authorization: &str) -> (r: String)
    ensures
        r@ == challenge_reply(lossy_text(bytes@), token@, key_authorization@),
{
    let request = lossy_string(bytes);
    reply_challenge(request.as_str(), token, key_authorization)
}

/// The reply to the text of a request while a challenge is served.
pub fn reply_challenge(request: &str, token: &str, key_authorization: &str) -> (r: String)
    ensures
        r@ == challenge_reply(request@, token@, key_authorization@),
{
    let all = split_lines(request);
    let ghost pieces = all.deep_view();
    let mut path = "/.well-known/acme-challenge/".to_owned();
    path.append(token);
    let matched = if all.len() > 0 {
        assert(pieces[0] == all@[0]@);
        contains_str(all[0].as_str(), path.as_str())
    } else {
        false
    };
    if matched {
        let body = bytes_of(key_authorization);
        let n: usize = body.len();
        let mut out =
            "HTTP/1.1 200 OK\r\nContent-Type: text/plain\r\nContent-Length: ".to_owned();
        out.append(decimal_of(n as u64).as_str());
        out.append("\r\nConnection: close\r\n\r\n");
        out.append(key_authorization);
        out
    } else {
        "HTTP/1.1 404 Not Found\r\nContent-Length: 0\r\nConnection: close\r\n\r\n".to_owned()
    }
}

// ---------------------------------------------------------------------------
// Laws
// ---------------------------------------------------------------------------

/// How many replies an order may still take at most.
pub open spec fn replies_left(o: OrderView) -> int {
    match o.phase {
        Phase::Directory => 2 * POLLS + 20,
        Phase::Nonce => 2 * POLLS + 19,
        Phase::Account => 2 * POLLS + 18,
        Phase::Order => 2 * POLLS + 17,
        Phase::Authorization => 2 * POLLS + 16,
        Phase::Trigger => 2 * POLLS + 15,
        Phase::Poll => POLLS + 5 + o.polls,
        Phase::Finalize => POLLS + 4,
        Phase::Wait => o.polls + 2,
        Phase::Download => 1,
        Phase::Issued => 0,
    }
}

/// An order comes to an end, whatever the authority replies.
pub proof fn orders_come_to_an_end(
    o: OrderView,
    status: u16,
    nonce: Option<Seq<char>>,
    body: Seq<u8>,
)
    requires
        o.phase != Phase::Issued,
    ensures
        after_reply(o, status, nonce, body) matches Ok(next) ==> 0 <= replies_left(next)
            < replies_left(o),
{
}

/// A certificate is asked for only once the authority has said that it found the
/// challenge met.
pub proof fn names_are_proved_first(
    o: OrderView,
    status: u16,
    nonce: Option<Seq<char>>,
    body: Seq<u8>,
)
    requires
        after_reply(o, status, nonce, body) is Ok,
        o.phase != Phase::Finalize,
        after_reply(o, status, nonce, body)->Ok_0.phase == Phase::Finalize,
    ensures
        o.phase == Phase::Poll,
        succeeded(status),
        state_of(or_null(json_document(body))) == "valid"@,
{
}

/// No nonce is used for two requests, as long as the authority gives a new one
/// with each reply.
pub proof fn each_nonce_is_used_once(
    o: OrderView,
    status: u16,
    nonce: Seq<char>,
    body: Seq<u8>,
)
    requires
        o.phase != Phase::Directory,
        o.phase != Phase::Download,
        o.phase != Phase::Issued,
    ensures
        after_reply(o, status, Some(nonce), body) matches Ok(next) ==> next.nonce == nonce,
{
}

/// Whoever does not ask for the token learns nothing of the proof.
pub proof fn the_proof_is_for_those_who_ask(
    request: Seq<char>,
    token: Seq<char>,
    one: Seq<char>,
    other: Seq<char>,
)
    requires
        !asks_for_token(request, token),
    ensures
        challenge_reply(request, token, one) == challenge_reply(request, token, other),
{
}

} // verus!
