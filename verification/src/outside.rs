//! Calls into other crates. Each function here hands its arguments to one
//! routine of another crate; its contract states what is relied on.

use std::io::Write;

use base64::Engine;
use vstd::prelude::*;
use vstd::utf8::{decode_utf8, encode_utf8, valid_utf8};

use crate::configs::yaml::{all_names_fit, holds_settings, is_comment, Setting, SettingView, Yaml};
use crate::net::address;
use crate::servers::certs::validity;
use crate::servers::json::{Json, Member, MemberView};
use crate::supports::calendar::date;
use crate::text::{lower, trim};

verus! {

// ---------------------------------------------------------------------------
// The standard library
// ---------------------------------------------------------------------------

/// The text that bytes stand for, with a replacement character for each
/// malformed part.
pub uninterp spec fn lossy_text(bytes: Seq<u8>) -> Seq<char>;

/// `String::from_utf8_lossy`: well-formed UTF-8 is decoded as it stands; what a
/// malformed part turns into is left to the name.
#[verifier::external_body]
pub(crate) fn lossy_string(bytes: &[u8]) -> (r: String)
    ensures
        r@ == lossy_text(bytes@),
        valid_utf8(bytes@) ==> r@ == decode_utf8(bytes@),
{
    String::from_utf8_lossy(bytes).into_owned()
}

/// `String::from_utf8`: the text of well-formed UTF-8, and nothing otherwise.
#[verifier::external_body]
pub(crate) fn utf8_string(bytes: Vec<u8>) -> (r: Option<String>)
    ensures
        match r {
            Some(s) => valid_utf8(bytes@) && s@ == decode_utf8(bytes@),
            None => !valid_utf8(bytes@),
        },
{
    String::from_utf8(bytes).ok()
}

// ---------------------------------------------------------------------------
// time
// ---------------------------------------------------------------------------

/// The last second of the year 9999, in seconds since 1970.
pub const TIME_MAX: i64 = 253402300799;

/// `time::OffsetDateTime::from_unix_timestamp` and the accessors of its fields:
/// year, month, day, hour, minute and second in UTC of a moment that is not
/// before 1970, and nothing after the year 9999.
#[verifier::external_body]
pub(crate) fn time_fields(t: i64) -> (r: Option<(u64, u64, u64, u64, u64, u64)>)
    requires
        t >= 0,
    ensures
        match r {
            Some(f) => {
                let d = date(t as int / 86400);
                let s = t as int % 86400;
                &&& t <= TIME_MAX
                &&& f.0 == d.0 && f.1 == d.1 && f.2 == d.2
                &&& f.3 == s / 3600 && f.4 == s / 60 % 60 && f.5 == s % 60
            },
            None => t > TIME_MAX,
        },
{
    let m = time::OffsetDateTime::from_unix_timestamp(t).ok()?;
    let day = (m.year() as u64, m.month() as u64, m.day() as u64);
    Some((day.0, day.1, day.2, m.hour() as u64, m.minute() as u64, m.second() as u64))
}

// ---------------------------------------------------------------------------
// serde_yaml
// ---------------------------------------------------------------------------

/// A YAML value of the serde_yaml crate.
#[verifier::external_type_specification]
#[verifier::external_body]
pub struct ExYamlValue(serde_yaml::Value);

/// What a YAML value holds.
pub uninterp spec fn yaml_content(v: serde_yaml::Value) -> Yaml;

/// What a YAML document holds, or what is wrong with it.
pub uninterp spec fn yaml_document(text: Seq<char>) -> Result<Yaml, Seq<char>>;

/// `serde_yaml::from_str`: the value of a document, or the message of its error,
/// is a function of the text. A text that is one comment is an empty document.
#[verifier::external_body]
pub(crate) fn yaml_parse(text: &str) -> (r: Result<serde_yaml::Value, String>)
    ensures
        match r {
            Ok(v) => yaml_document(text@) == Ok::<Yaml, Seq<char>>(yaml_content(v)) && (is_comment(
                text@,
            ) ==> yaml_content(v) == Yaml::Null),
            Err(e) => yaml_document(text@) == Err::<Yaml, Seq<char>>(e@) && !is_comment(text@),
        },
{
    serde_yaml::from_str(text).map_err(|e| e.to_string())
}

/// The variants of `serde_yaml::Value` as plain values: numbers by
/// `Number::as_u64`, lists and mappings in their order, tagged values without
/// the text of the tag.
#[verifier::external_body]
pub(crate) fn yaml_plain(v: &serde_yaml::Value) -> (r: Yaml)
    ensures
        r == yaml_content(*v),
{
    match v {
        serde_yaml::Value::Null => Yaml::Null,
        serde_yaml::Value::Bool(b) => Yaml::Bool(*b),
        serde_yaml::Value::Number(n) => n.as_u64().map_or(Yaml::Other, Yaml::Number),
        serde_yaml::Value::String(s) => Yaml::Text(s.clone()),
        serde_yaml::Value::Sequence(l) => Yaml::List(l.iter().map(yaml_plain).collect()),
        serde_yaml::Value::Mapping(m) => Yaml::Entries(
            m.iter().map(|(k, x)| (yaml_plain(k), yaml_plain(x))).collect(),
        ),
        serde_yaml::Value::Tagged(t) => Yaml::Tagged(Box::new(yaml_plain(&t.value))),
    }
}

/// The YAML text of a mapping.
pub uninterp spec fn yaml_text(entries: Seq<(Seq<char>, SettingView)>) -> Option<Seq<char>>;

/// `serde_yaml::to_string` of a mapping: the text, if there is one, is a function
/// of the entries. Where their names differ and stand on one line in printable ASCII,
/// there is one, it is not blank, and reading it gives a mapping of these entries,
/// whatever texts they hold: a text that would be read as something else is quoted,
/// one with a line feed stands as a block with its indentation and its last line
/// feeds marked, and characters that do not stand for themselves are escaped.
#[verifier::external_body]
pub(crate) fn yaml_write(entries: &Vec<(String, Setting)>) -> (r: Option<String>)
    ensures
        r.deep_view() == yaml_text(entries.deep_view()),
        all_names_fit(entries.deep_view()) ==> match r {
            Some(t) => trim(t@).len() > 0 && (yaml_document(t@) matches Ok(y) && holds_settings(
                y,
                entries.deep_view(),
            )),
            None => false,
        },
{
    let value = |s: &Setting| match s {
        Setting::Text(t) => serde_yaml::Value::from(t.as_str()),
        Setting::Number(n) => serde_yaml::Value::from(*n),
        Setting::Flag(b) => serde_yaml::Value::from(*b),
        Setting::Flags(f) => serde_yaml::Mapping::from_iter(
            f.iter().map(|(k, b)| (k.as_str().into(), (*b).into())),
        ).into(),
    };
    let pairs = entries.iter().map(|(k, s)| (k.as_str().into(), value(s)));
    serde_yaml::to_string(&serde_yaml::Mapping::from_iter(pairs)).ok()
}

// ---------------------------------------------------------------------------
// regex
// ---------------------------------------------------------------------------

/// What matching a pattern against a text finds: nothing where the pattern does
/// not compile; otherwise the leftmost match, if there is one, as the texts of
/// its groups, the whole match first.
pub uninterp spec fn regex_groups(pattern: Seq<char>, text: Seq<char>) -> Option<
    Option<Seq<Option<Seq<char>>>>,
>;

/// `regex::Regex::new` and then `Regex::captures`: the groups of the leftmost
/// match are a function of the pattern and the text.
#[verifier::external_body]
pub(crate) fn regex_captures(pattern: &str, text: &str) -> (r: Option<Option<Vec<Option<String>>>>)
    ensures
        r.deep_view() == regex_groups(pattern@, text@),
{
    let re = regex::Regex::new(pattern).ok()?;
    let found = re.captures(text);
    Some(found.map(|c| c.iter().map(|m| m.map(|g| g.as_str().to_owned())).collect()))
}

// ---------------------------------------------------------------------------
// base64
// ---------------------------------------------------------------------------

/// The bytes that text in the standard base64 alphabet, with padding, encodes.
pub uninterp spec fn base64_bytes(text: Seq<char>) -> Option<Seq<u8>>;

/// `Engine::decode` of the `STANDARD` engine of the base64 crate: the bytes that
/// a text encodes are a function of the text.
#[verifier::external_body]
pub(crate) fn base64_decode(text: &str) -> (r: Option<Vec<u8>>)
    ensures
        r.deep_view() == base64_bytes(text@),
{
    base64::engine::general_purpose::STANDARD.decode(text).ok()
}

/// The standard base64 text of bytes, with padding.
pub uninterp spec fn base64_text(bytes: Seq<u8>) -> Seq<char>;

/// `Engine::encode` of the `STANDARD` engine of the base64 crate: the text is a
/// function of the bytes, and `Engine::decode` of it gives the bytes back.
#[verifier::external_body]
pub(crate) fn base64_encode(bytes: &[u8]) -> (r: String)
    ensures
        r@ == base64_text(bytes@),
        base64_bytes(r@) == Some(bytes@),
{
    base64::engine::general_purpose::STANDARD.encode(bytes)
}

/// The base64 text of bytes in the alphabet for addresses, without padding.
pub uninterp spec fn base64_url_text(bytes: Seq<u8>) -> Seq<char>;

/// `Engine::encode` of the `URL_SAFE_NO_PAD` engine of the base64 crate: the text
/// is a function of the bytes.
#[verifier::external_body]
pub(crate) fn base64_url_encode(bytes: &[u8]) -> (r: String)
    ensures
        r@ == base64_url_text(bytes@),
{
    base64::engine::general_purpose::URL_SAFE_NO_PAD.encode(bytes)
}

// ---------------------------------------------------------------------------
// Password digests
// ---------------------------------------------------------------------------

/// Whether a password answers a bcrypt hash; nothing where the hash is not one.
pub uninterp spec fn bcrypt_answers(password: Seq<char>, hash: Seq<char>) -> Option<bool>;

/// `bcrypt::verify`: whether a password answers a hash is a function of both.
#[verifier::external_body]
pub(crate) fn bcrypt_verify(password: &str, hash: &str) -> (r: Option<bool>)
    ensures
        r == bcrypt_answers(password@, hash@),
{
    bcrypt::verify(password, hash).ok()
}

/// The MD5 digest of bytes.
pub uninterp spec fn md5_digest(bytes: Seq<u8>) -> Seq<u8>;

/// `md5::Md5::digest`: the digest is a function of the bytes and has sixteen
/// bytes.
#[verifier::external_body]
pub(crate) fn md5_of(bytes: &[u8]) -> (r: Vec<u8>)
    ensures
        r@ == md5_digest(bytes@),
        r@.len() == 16,
{
    <md5::Md5 as md5::Digest>::digest(bytes).to_vec()
}

/// The SHA-1 digest of bytes.
pub uninterp spec fn sha1_digest(bytes: Seq<u8>) -> Seq<u8>;

/// `sha1::Sha1::digest`: the digest is a function of the bytes.
#[verifier::external_body]
pub(crate) fn sha1_of(bytes: &[u8]) -> (r: Vec<u8>)
    ensures
        r@ == sha1_digest(bytes@),
{
    <sha1::Sha1 as sha1::Digest>::digest(bytes).to_vec()
}

// ---------------------------------------------------------------------------
// mime_guess
// ---------------------------------------------------------------------------

/// The media type that is known of a path's extension, without parameters.
pub uninterp spec fn mime_essence(path: Seq<char>) -> Seq<char>;

/// `mime_guess::from_path` and the essence of its first guess: the media type is
/// a function of the path.
#[verifier::external_body]
pub(crate) fn mime_of(path: &str) -> (r: String)
    ensures
        r@ == mime_essence(path@),
{
    mime_guess::from_path(path).first_or_octet_stream().essence_str().to_owned()
}

// ---------------------------------------------------------------------------
// http
// ---------------------------------------------------------------------------

/// Whether a character may stand in the name of a header field.
pub open spec fn is_token_char(c: char) -> bool {
    'a' <= c <= 'z' || 'A' <= c <= 'Z' || '0' <= c <= '9' || c == '!' || c == '#' || c == '$' || c
        == '%' || c == '&' || c == '\'' || c == '*' || c == '+' || c == '-' || c == '.' || c == '^'
        || c == '_' || c == '`' || c == '|' || c == '~'
}

/// Whether text is the name of a header field.
pub open spec fn is_field_name(s: Seq<char>) -> bool {
    0 < s.len() <= 0xffff && forall|i: int| 0 <= i < s.len() ==> is_token_char(#[trigger] s[i])
}

/// `http::HeaderName::from_bytes`: a name of token characters, of a limited
/// length, in lower case; nothing for other text.
#[verifier::external_body]
pub(crate) fn header_name(name: &str) -> (r: Option<String>)
    ensures
        match r {
            Some(n) => is_field_name(name@) && n@ == lower(name@),
            None => !is_field_name(name@),
        },
{
    http::HeaderName::from_bytes(name.as_bytes()).ok().map(|n| n.as_str().to_owned())
}

/// Whether text is the value of a header field: no control characters but tabs.
pub open spec fn is_field_value(s: Seq<char>) -> bool {
    forall|i: int|
        0 <= i < s.len() ==> (#[trigger] s[i] == '\t' || (s[i] as u32 >= 32 && s[i] as u32 != 127))
}

/// `http::HeaderValue::from_str`: whether it takes a text as a value.
#[verifier::external_body]
pub(crate) fn header_value_ok(value: &str) -> (r: bool)
    ensures
        r == is_field_value(value@),
{
    http::HeaderValue::from_str(value).is_ok()
}

/// Whether text is a method: one token.
pub open spec fn is_method(s: Seq<char>) -> bool {
    0 < s.len() && forall|i: int| 0 <= i < s.len() ==> is_token_char(#[trigger] s[i])
}

/// `http::Method::from_bytes`: whether it takes a text as a method.
#[verifier::external_body]
pub(crate) fn method_ok(method: &str) -> (r: bool)
    ensures
        r == is_method(method@),
{
    http::Method::from_bytes(method.as_bytes()).is_ok()
}

/// The target of a request as it is sent, or what is wrong with it.
pub uninterp spec fn target_text(text: Seq<char>) -> Result<Seq<char>, Seq<char>>;

/// `http::Uri::from_str` and `http::Uri::to_string`: the target that text
/// stands for, written out, or the message of the error. Both are functions of
/// the text.
#[verifier::external_body]
pub(crate) fn parse_target(text: &str) -> (r: Result<String, String>)
    ensures
        match r {
            Ok(t) => target_text(text@) == Ok::<Seq<char>, Seq<char>>(t@),
            Err(e) => target_text(text@) == Err::<Seq<char>, Seq<char>>(e@),
        },
{
    match text.parse::<http::Uri>() {
        Ok(uri) => Ok(uri.to_string()),
        Err(e) => Err(e.to_string()),
    }
}

// ---------------------------------------------------------------------------
// flate2 and brotli
// ---------------------------------------------------------------------------

/// Bytes as gzip, if they can be encoded.
pub uninterp spec fn gzip_bytes(data: Seq<u8>) -> Option<Seq<u8>>;

/// What `flate2::read::GzDecoder` reads from bytes to their end, if they are gzip.
pub uninterp spec fn gunzipped(data: Seq<u8>) -> Option<Seq<u8>>;

/// `flate2::write::GzEncoder` at its default level: the encoded bytes are a
/// function of the bytes, and the decoder of the crate gives the bytes back.
#[verifier::external_body]
pub(crate) fn gzip_encode(data: &[u8]) -> (r: Option<Vec<u8>>)
    ensures
        r.deep_view() == gzip_bytes(data@),
        match r {
            Some(z) => gunzipped(z@) == Some(data@),
            None => true,
        },
{
    let mut writer = flate2::write::GzEncoder::new(Vec::new(), flate2::Compression::default());
    writer.write_all(data).ok()?;
    writer.finish().ok()
}

/// Bytes as Brotli, if they can be encoded with a buffer, a quality and a window.
pub uninterp spec fn brotli_bytes(
    data: Seq<u8>,
    buffer: usize,
    quality: u32,
    window: u32,
) -> Option<Seq<u8>>;

/// What `brotli::Decompressor` reads from bytes to their end, if they are Brotli.
pub uninterp spec fn unbrotlied(data: Seq<u8>) -> Option<Seq<u8>>;

/// `brotli::CompressorWriter`: the encoded bytes are a function of the bytes and
/// the parameters, and the decoder of the crate gives the bytes back.
#[verifier::external_body]
pub(crate) fn brotli_encode(data: &[u8], buffer: usize, quality: u32, window: u32) -> (r: Option<
    Vec<u8>,
>)
    requires
        0 < buffer,
        quality <= 11,
        10 <= window <= 24,
    ensures
        r.deep_view() == brotli_bytes(data@, buffer, quality, window),
        match r {
            Some(z) => unbrotlied(z@) == Some(data@),
            None => true,
        },
{
    let mut out: Vec<u8> = Vec::new();
    let mut writer = brotli::CompressorWriter::new(&mut out, buffer, quality, window);
    writer.write_all(data).ok()?;
    drop(writer);
    Some(out)
}

// ---------------------------------------------------------------------------
// rustls_pemfile and ring
// ---------------------------------------------------------------------------

/// The first certificate in PEM text, if that is one.
pub uninterp spec fn pem_certificate(pem: Seq<u8>) -> Option<Seq<u8>>;

/// The first item of `rustls_pemfile::certs`: its bytes, if there is one and it is
/// no error, are a function of the text.
#[verifier::external_body]
pub(crate) fn pem_first_certificate(pem: &[u8]) -> (r: Option<Vec<u8>>)
    ensures
        r.deep_view() == pem_certificate(pem@),
{
    let mut reader = std::io::Cursor::new(pem);
    let first = rustls_pemfile::certs(&mut reader).next()?;
    first.ok().map(|cert| cert.as_ref().to_vec())
}

/// The certificates in PEM text, or what is wrong with it.
pub uninterp spec fn pem_chain(pem: Seq<u8>) -> Result<Seq<Seq<u8>>, Seq<char>>;

/// All items of `rustls_pemfile::certs`: their bytes, or the message of the first
/// error, are a function of the text. Where there is an item, it is the one that
/// is first.
#[verifier::external_body]
pub(crate) fn pem_certificates(pem: &[u8]) -> (r: Result<Vec<Vec<u8>>, String>)
    ensures
        match r {
            Ok(l) => {
                &&& pem_chain(pem@) == Ok::<Seq<Seq<u8>>, Seq<char>>(l.deep_view())
                &&& l@.len() > 0 ==> pem_certificate(pem@) == Some(l@[0]@)
            },
            Err(e) => pem_chain(pem@) == Err::<Seq<Seq<u8>>, Seq<char>>(e@),
        },
{
    let mut reader = std::io::Cursor::new(pem);
    let all: Result<Vec<_>, _> = rustls_pemfile::certs(&mut reader).collect();
    match all {
        Ok(list) => Ok(list.iter().map(|cert| cert.as_ref().to_vec()).collect()),
        Err(e) => Err(e.to_string()),
    }
}

/// The first private key in PEM text, if there is one, or what is wrong with it.
pub uninterp spec fn pem_key(pem: Seq<u8>) -> Result<Option<Seq<u8>>, Seq<char>>;

/// `rustls_pemfile::private_key`: the bytes of the first key, if there is one, or
/// the message of the error, are a function of the text.
#[verifier::external_body]
pub(crate) fn pem_private_key(pem: &[u8]) -> (r: Result<Option<Vec<u8>>, String>)
    ensures
        match r {
            Ok(k) => pem_key(pem@) == Ok::<Option<Seq<u8>>, Seq<char>>(k.deep_view()),
            Err(e) => pem_key(pem@) == Err::<Option<Seq<u8>>, Seq<char>>(e@),
        },
{
    match rustls_pemfile::private_key(&mut std::io::Cursor::new(pem)) {
        Ok(key) => Ok(key.map(|k| k.secret_der().to_vec())),
        Err(e) => Err(e.to_string()),
    }
}

/// The SHA-256 digest of bytes.
pub uninterp spec fn sha256_digest(data: Seq<u8>) -> Seq<u8>;

/// `ring::digest::digest` with `SHA256`: the digest is a function of the bytes.
#[verifier::external_body]
pub(crate) fn sha256_of(data: &[u8]) -> (r: Vec<u8>)
    ensures
        r@ == sha256_digest(data@),
{
    ring::digest::digest(&ring::digest::SHA256, data).as_ref().to_vec()
}

/// The public key that belongs to a private key in PKCS#8 form.
pub uninterp spec fn ecdsa_point(pkcs8: Seq<u8>) -> Option<Seq<u8>>;

/// Whether a signature of some bytes is one by the owner of a public key, on the
/// curve P-256 and with SHA-256.
pub uninterp spec fn ecdsa_verifies(point: Seq<u8>, data: Seq<u8>, signature: Seq<u8>) -> bool;

/// `ring::signature::EcdsaKeyPair::generate_pkcs8`: a new private key, unless
/// there is no randomness. Which one it is is left to chance.
#[verifier::external_body]
pub(crate) fn ecdsa_generate() -> (r: Option<Vec<u8>>) {
    let rng = ring::rand::SystemRandom::new();
    let curve = &ring::signature::ECDSA_P256_SHA256_FIXED_SIGNING;
    let document = ring::signature::EcdsaKeyPair::generate_pkcs8(curve, &rng).ok()?;
    Some(document.as_ref().to_vec())
}

/// `ring::signature::EcdsaKeyPair::from_pkcs8` and the public key of the pair,
/// which is a function of the private one. Whether there is randomness, which is
/// needed too, is left to chance.
#[verifier::external_body]
pub(crate) fn ecdsa_public_key(pkcs8: &[u8]) -> (r: Option<Vec<u8>>)
    ensures
        r matches Some(p) ==> ecdsa_point(pkcs8@) == Some(p@),
{
    let rng = ring::rand::SystemRandom::new();
    let curve = &ring::signature::ECDSA_P256_SHA256_FIXED_SIGNING;
    let pair = ring::signature::EcdsaKeyPair::from_pkcs8(curve, pkcs8, &rng).ok()?;
    Some(ring::signature::KeyPair::public_key(&pair).as_ref().to_vec())
}

/// `ring::signature::EcdsaKeyPair::sign`: a signature of the bytes by the owner of
/// the key. Which of them, and whether there is randomness for one, is left to
/// chance.
#[verifier::external_body]
pub(crate) fn ecdsa_sign(pkcs8: &[u8], data: &[u8]) -> (r: Option<Vec<u8>>)
    ensures
        r matches Some(s) ==> match ecdsa_point(pkcs8@) {
            Some(p) => ecdsa_verifies(p, data@, s@),
            None => false,
        },
{
    let rng = ring::rand::SystemRandom::new();
    let curve = &ring::signature::ECDSA_P256_SHA256_FIXED_SIGNING;
    let pair = ring::signature::EcdsaKeyPair::from_pkcs8(curve, pkcs8, &rng).ok()?;
    Some(pair.sign(&rng, data).ok()?.as_ref().to_vec())
}

// ---------------------------------------------------------------------------
// rcgen
// ---------------------------------------------------------------------------

/// What a certificate is to say, for the rcgen crate.
#[verifier::external_type_specification]
#[verifier::external_body]
pub struct ExCertificateParams(rcgen::CertificateParams);

/// A pair of keys of the rcgen crate.
#[verifier::external_type_specification]
#[verifier::external_body]
pub struct ExCertificateKey(rcgen::KeyPair);

/// Whether all characters are ASCII.
pub open spec fn is_ascii_text(s: Seq<char>) -> bool {
    forall|i: int| 0 <= i < s.len() ==> #[trigger] s[i] as u32 <= 127
}

/// The host names that a certificate is to be for.
pub uninterp spec fn wanted_names(params: rcgen::CertificateParams) -> Seq<Seq<char>>;

/// `rcgen::CertificateParams::new` for one name: an address is taken as such, and
/// other text as a host name, which has to be ASCII.
#[verifier::external_body]
pub(crate) fn certificate_params(name: &str) -> (r: Result<rcgen::CertificateParams, String>)
    ensures
        match r {
            Ok(p) => is_ascii_text(name@) && wanted_names(p) == host_names(name@),
            Err(e) => !is_ascii_text(name@) && e@ == "Invalid IA5String: '"@ + name@ + "'"@,
        },
{
    rcgen::CertificateParams::new(vec![name.to_owned()]).map_err(|e| e.to_string())
}

/// The host names in a certificate for one name, which may be an address instead.
pub open spec fn host_names(name: Seq<char>) -> Seq<Seq<char>> {
    if address(name) is Some {
        Seq::empty()
    } else {
        seq![name]
    }
}

/// The public key of a pair, as a point of its curve.
pub uninterp spec fn pair_point(key: rcgen::KeyPair) -> Seq<u8>;

/// Whether a pair is one for ECDSA on the curve P-256 whose private key is at hand.
pub uninterp spec fn is_local_pair(key: rcgen::KeyPair) -> bool;

/// `rcgen::KeyPair::generate`: a new pair of keys for ECDSA on the curve P-256, or
/// the message of the error. Which one it is is left to chance.
#[verifier::external_body]
pub(crate) fn certificate_key() -> (r: Result<rcgen::KeyPair, String>)
    ensures
        r matches Ok(key) ==> is_local_pair(key),
{
    rcgen::KeyPair::generate().map_err(|e| e.to_string())
}

/// `rcgen::KeyPair::serialize_pem`: PEM text with the private key of the pair, in
/// PKCS#8 form.
#[verifier::external_body]
pub(crate) fn certificate_key_pem(key: &rcgen::KeyPair) -> (r: String)
    requires
        is_local_pair(*key),
    ensures
        match pem_key(encode_utf8(r@)) {
            Ok(Some(k)) => ecdsa_point(k) == Some(pair_point(*key)),
            _ => false,
        },
{
    key.serialize_pem()
}

/// The host names that the first certificate in PEM text is for.
pub uninterp spec fn certified_names(pem: Seq<u8>) -> Seq<Seq<char>>;

/// The public key that the first certificate in PEM text is for, as a point of its
/// curve.
pub uninterp spec fn certified_key(pem: Seq<u8>) -> Seq<u8>;

/// `rcgen::CertificateParams::self_signed` and `rcgen::Certificate::pem`: PEM text
/// with one certificate for the names that the parameters hold and for the public
/// key of the pair, which is valid from one moment to another, or the message of
/// the error. The serial number and the signature are left unsaid.
#[verifier::external_body]
pub(crate) fn self_signed_pem(
    params: rcgen::CertificateParams,
    key: &rcgen::KeyPair,
    from: i64,
    to: i64,
) -> (r: Result<String, String>)
    requires
        0 <= from <= TIME_MAX,
        0 <= to <= TIME_MAX,
    ensures
        r matches Ok(pem) ==> {
            &&& certified_names(encode_utf8(pem@)) == wanted_names(params)
            &&& certified_key(encode_utf8(pem@)) == pair_point(*key)
            &&& match pem_certificate(encode_utf8(pem@)) {
                Some(der) => {
                    &&& validity(der) == Some((from as int, to as int))
                    &&& pem_chain(encode_utf8(pem@)) == Ok::<Seq<Seq<u8>>, Seq<char>>(seq![der])
                },
                None => false,
            }
        },
{
    let mut params = params;
    params.not_before = time::OffsetDateTime::from_unix_timestamp(from).unwrap();
    params.not_after = time::OffsetDateTime::from_unix_timestamp(to).unwrap();
    params.self_signed(key).map(|cert| cert.pem()).map_err(|e| e.to_string())
}

/// The host names that a certificate request is about.
pub uninterp spec fn requested_names(request: Seq<u8>) -> Seq<Seq<char>>;

/// The public key that a certificate request is about, as a point of its curve.
pub uninterp spec fn requested_key(request: Seq<u8>) -> Seq<u8>;

/// `rcgen::CertificateParams::serialize_request`: a request for a certificate for
/// the names that the parameters hold and for the public key of the pair, or the
/// message of the error. The signature is left unsaid.
#[verifier::external_body]
pub(crate) fn certificate_request_der(
    params: &rcgen::CertificateParams,
    key: &rcgen::KeyPair,
) -> (r: Result<Vec<u8>, String>)
    ensures
        r matches Ok(der) ==> requested_names(der@) == wanted_names(*params) && requested_key(der@)
            == pair_point(*key),
{
    params.serialize_request(key).map(|csr| csr.der().to_vec()).map_err(|e| e.to_string())
}

// ---------------------------------------------------------------------------
// serde_json
// ---------------------------------------------------------------------------

/// A JSON value of the serde_json crate.
#[verifier::external_type_specification]
#[verifier::external_body]
pub struct ExJsonValue(serde_json::Value);

/// What a JSON value holds.
pub uninterp spec fn json_content(v: serde_json::Value) -> Json;

/// What a JSON document holds, or what is wrong with it.
pub uninterp spec fn json_document(bytes: Seq<u8>) -> Result<Json, Seq<char>>;

/// `serde_json::from_slice`: the value of a document, or the message of its error,
/// is a function of the bytes.
#[verifier::external_body]
pub(crate) fn json_parse(bytes: &[u8]) -> (r: Result<serde_json::Value, String>)
    ensures
        match r {
            Ok(v) => json_document(bytes@) == Ok::<Json, Seq<char>>(json_content(v)),
            Err(e) => json_document(bytes@) == Err::<Json, Seq<char>>(e@),
        },
{
    serde_json::from_slice(bytes).map_err(|e| e.to_string())
}

/// The variants of `serde_json::Value` as plain values: lists and objects in
/// their order, numbers without what they are.
#[verifier::external_body]
pub(crate) fn json_plain(v: &serde_json::Value) -> (r: Json)
    ensures
        r == json_content(*v),
{
    match v {
        serde_json::Value::Null => Json::Null,
        serde_json::Value::Bool(b) => Json::Bool(*b),
        serde_json::Value::Number(_) => Json::Number,
        serde_json::Value::String(s) => Json::Text(s.clone()),
        serde_json::Value::Array(l) => Json::List(l.iter().map(json_plain).collect()),
        serde_json::Value::Object(m) => Json::Entries(
            m.iter().map(|(k, x)| (k.clone(), json_plain(x))).collect(),
        ),
    }
}

/// The JSON text of an object.
pub uninterp spec fn json_text(members: Seq<(Seq<char>, MemberView)>) -> Seq<char>;

/// `serde_json::Value::to_string` of an object: the text is a function of the
/// members.
#[verifier::external_body]
pub(crate) fn json_write(members: &Vec<(String, Member)>) -> (r: String)
    ensures
        r@ == json_text(members.deep_view()),
{
    let texts = |m: &Vec<(String, String)>| serde_json::Value::Object(
        m.iter().map(|(k, t)| (k.clone(), t.as_str().into())).collect(),
    );
    let value = |m: &Member| match m {
        Member::Text(t) => serde_json::Value::from(t.as_str()),
        Member::Flag(b) => serde_json::Value::from(*b),
        Member::Object(o) => texts(o),
        Member::Objects(l) => l.iter().map(texts).collect(),
    };
    let object = members.iter().map(|(k, m)| (k.clone(), value(m)));
    serde_json::Value::Object(object.collect()).to_string()
}

} // verus!
