//! Certificates: which one the server uses, and how long one is valid.

use vstd::prelude::*;
use vstd::slice::slice_subrange;
use vstd::utf8::{decode_utf8, encode_utf8, valid_utf8};

use crate::configs::resolve::{derived_name, name_of, or_default};
use crate::digits::{number, parse_number, value};
use crate::net::{is_public_addr, public_addr};
use crate::outside::{
    certificate_key, certificate_key_pem, certificate_params, certified_key, certified_names,
    ecdsa_point, host_names, is_ascii_text, pem_certificate, pem_certificates, pem_chain, pem_first_certificate, pem_key,
    pem_private_key, self_signed_pem, utf8_string, TIME_MAX,
};
use crate::paths::{join_path, under_dir};
use crate::servers::http::copy_bytes;
use crate::supports::calendar::{civil_days, days_from_civil};
use crate::text::{chars_of, string_of, strip_suffix, without_suffix};

verus! {

/// Where the certificates of a project are kept.
pub open spec fn certificate_dir(
    data_dir: Seq<char>,
    base_dir: Seq<char>,
    canonical: Option<Seq<char>>,
) -> Seq<char> {
    under_dir(under_dir(data_dir, "certs"@), name_of(or_default(canonical, base_dir)))
}

/// Where the certificates of the project in a directory, which resolves to
/// `canonical` if it is there, are kept.
pub fn cert_dir(data_dir: &str, base_dir: &str, canonical: &Option<String>) -> (r: String)
    ensures
        r@ == certificate_dir(data_dir@, base_dir@, canonical.deep_view()),
{
    let certs = join_path(data_dir, "certs");
    let name = derived_name(base_dir, canonical);
    join_path(certs.as_str(), name.as_str())
}

// ---------------------------------------------------------------------------
// DER
// ---------------------------------------------------------------------------

/// The number that bytes are, the first one the most significant.
pub open spec fn big_endian(b: Seq<u8>) -> int
    decreases b.len(),
{
    if b.len() == 0 {
        0
    } else {
        big_endian(b.drop_last()) * 256 + b.last() as int
    }
}

/// How long the contents of an element are, and how many bytes stand before
/// them; nothing for a length in more than four bytes or of no definite form.
pub open spec fn der_length(d: Seq<u8>) -> Option<(int, int)> {
    if d.len() < 2 {
        None
    } else if d[1] < 128 {
        Some((d[1] as int, 2))
    } else {
        let n = d[1] - 128;
        if n == 0 || n > 4 || 2 + n > d.len() {
            None
        } else {
            Some((big_endian(d.subrange(2, 2 + n)), 2 + n))
        }
    }
}

/// The element at the start of bytes: its tag, its contents and what follows.
pub open spec fn der_element(d: Seq<u8>) -> Option<(u8, Seq<u8>, Seq<u8>)> {
    match der_length(d) {
        None => None,
        Some((len, start)) => if start + len > d.len() {
            None
        } else {
            Some((d[0], d.subrange(start, start + len), d.skip(start + len)))
        },
    }
}

/// An element of bytes, by its value.
pub open spec fn element_view(r: Option<(u8, &[u8], &[u8])>) -> Option<(u8, Seq<u8>, Seq<u8>)> {
    match r {
        Some((tag, content, rest)) => Some((tag, content@, rest@)),
        None => None,
    }
}

/// The element at the start of bytes: its tag, its contents and what follows.
pub fn der_read_tlv(data: &[u8]) -> (r: Option<(u8, &[u8], &[u8])>)
    ensures
        element_view(r) == der_element(data@),
{
    let total: usize = data.len();
    if total < 2 {
        return None;
    }
    let tag: u8 = data[0];
    let first: u8 = data[1];
    let mut len: u64 = first as u64;
    let mut start: usize = 2;
    if first >= 128 {
        let n: usize = (first - 128) as usize;
        if n == 0 || n > 4 || n > total - 2 {
            return None;
        }
        len = 0;
        let mut i: usize = 0;
        assert(data@.subrange(2, 2) =~= Seq::empty());
        while i < n
            invariant
                i <= n,
                n <= 4,
                n <= total - 2,
                total == data@.len(),
                len == big_endian(data@.subrange(2, 2 + i)),
                i == 0 ==> len < 1,
                i == 1 ==> len < 0x100,
                i == 2 ==> len < 0x1_0000,
                i == 3 ==> len < 0x100_0000,
                i == 4 ==> len < 0x1_0000_0000,
            decreases n - i,
        {
            assert(data@.subrange(2, 2 + i + 1).drop_last() =~= data@.subrange(2, 2 + i));
            len = len * 256 + data[2 + i] as u64;
            i = i + 1;
        }
        start = 2 + n;
    }
    if len > (total - start) as u64 {
        return None;
    }
    let end: usize = start + len as usize;
    let content = slice_subrange(data, start, end);
    let rest = slice_subrange(data, end, total);
    assert(rest@ =~= data@.skip(end as int));
    Some((tag, content, rest))
}

/// The number that a piece of a date is: a sign may stand before its digits.
pub open spec fn signed_piece(s: Seq<char>) -> Option<int> {
    if s.len() > 1 && s[0] == '-' {
        match value(s.skip(1), 10) {
            Some(v) => Some(-v),
            None => None,
        }
    } else {
        number(s, 10, 9999)
    }
}

/// A part of text.
pub open spec fn piece(s: Seq<char>, from: int, to: int) -> Seq<char> {
    s.subrange(from, to)
}

/// The moment that a month, a day and a time of day in a year stand for, in
/// seconds since 1970.
pub open spec fn moment(year: int, s: Seq<char>) -> Option<int> {
    match (
        number(piece(s, 0, 2), 10, 99),
        number(piece(s, 2, 4), 10, 99),
        signed_piece(piece(s, 4, 6)),
        signed_piece(piece(s, 6, 8)),
        signed_piece(piece(s, 8, 10)),
    ) {
        (Some(month), Some(day), Some(hour), Some(minute), Some(second)) => Some(
            civil_days(year, month, day) * 86400 + hour * 3600 + minute * 60 + second,
        ),
        _ => None,
    }
}

/// The moment that the text of a time stands for, in seconds since 1970. A year
/// in two digits below fifty is one of this century.
pub open spec fn moment_of(tag: u8, text: Seq<char>) -> Option<int> {
    match strip_suffix(text, "Z"@) {
        None => None,
        Some(s) => if tag == 0x17 && s.len() == 12 {
            match signed_piece(piece(s, 0, 2)) {
                Some(yy) => moment(
                    if yy < 50 {
                        2000 + yy
                    } else {
                        1900 + yy
                    },
                    s.skip(2),
                ),
                None => None,
            }
        } else if tag == 0x18 && s.len() == 14 {
            match signed_piece(piece(s, 0, 4)) {
                Some(year) => moment(year, s.skip(4)),
                None => None,
            }
        } else {
            None
        },
    }
}

/// The moment that an element of a time stands for, in seconds since 1970.
pub open spec fn asn1_time(tag: u8, content: Seq<u8>) -> Option<int> {
    if valid_utf8(content) {
        moment_of(tag, decode_utf8(content))
    } else {
        None
    }
}

/// The number that a piece of a date is.
fn read_signed(v: &[char], from: usize, to: usize) -> (r: Option<i64>)
    requires
        from < to <= v@.len(),
        to - from <= 4,
    ensures
        match r {
            Some(n) => signed_piece(v@.subrange(from as int, to as int)) == Some(n as int) && -9999
                <= n <= 9999,
            None => signed_piece(v@.subrange(from as int, to as int)) is None,
        },
{
    let ghost s = v@.subrange(from as int, to as int);
    if to - from > 1 && v[from] == '-' {
        assert(s[0] == v@[from as int]);
        if v[from + 1] == '+' {
            assert(s.skip(1)[0] == '+');
            proof {
                lemma_no_sign(s.skip(1), 0);
            }
            return None;
        }
        let digits = string_of(v, from + 1, to);
        assert(digits@ =~= s.skip(1));
        assert(s.skip(1)[0] == v@[from + 1]);
        match parse_number(digits.as_str(), 10, 9999) {
            Some(n) => Some(-(n as i64)),
            None => {
                proof {
                    lemma_small(s.skip(1));
                }
                None
            },
        }
    } else {
        assert(s[0] == v@[from as int]);
        let digits = string_of(v, from, to);
        match parse_number(digits.as_str(), 10, 9999) {
            Some(n) => Some(n as i64),
            None => None,
        }
    }
}

/// A sign is no digit.
proof fn lemma_no_sign(s: Seq<char>, i: int)
    requires
        0 <= i < s.len(),
        s[i] == '+',
    ensures
        value(s, 10) is None,
    decreases s.len(),
{
    if i < s.len() - 1 {
        assert(s.drop_last()[i] == s[i]);
        lemma_no_sign(s.drop_last(), i);
    } else {
        assert(s.last() == '+');
    }
}

/// Few digits are a small number.
proof fn lemma_small(s: Seq<char>)
    requires
        s.len() <= 3,
    ensures
        value(s, 10) matches Some(v) ==> 0 <= v <= 999,
{
    reveal_with_fuel(value, 5);
}

fn read_plain(v: &[char], from: usize, to: usize) -> (r: Option<u32>)
    requires
        from < to <= v@.len(),
    ensures
        match r {
            Some(n) => number(v@.subrange(from as int, to as int), 10, 99) == Some(n as int) && n
                <= 99,
            None => number(v@.subrange(from as int, to as int), 10, 99) is None,
        },
{
    let digits = string_of(v, from, to);
    match parse_number(digits.as_str(), 10, 99) {
        Some(n) => Some(n as u32),
        None => None,
    }
}

fn read_moment(year: i64, v: &[char], at: usize) -> (r: Option<i64>)
    requires
        -9999 <= year <= 12000,
        at <= 4,
        v@.len() == at + 10,
    ensures
        match r {
            Some(t) => moment(year as int, v@.skip(at as int)) == Some(t as int),
            None => moment(year as int, v@.skip(at as int)) is None,
        },
{
    let ghost s = v@.skip(at as int);
    assert(s.subrange(0, 2) =~= v@.subrange(at as int, at + 2));
    assert(s.subrange(2, 4) =~= v@.subrange(at + 2, at + 4));
    assert(s.subrange(4, 6) =~= v@.subrange(at + 4, at + 6));
    assert(s.subrange(6, 8) =~= v@.subrange(at + 6, at + 8));
    assert(s.subrange(8, 10) =~= v@.subrange(at + 8, at + 10));
    let month: u32 = match read_plain(v, at, at + 2) {
        Some(n) => n,
        None => {
            return None;
        },
    };
    let day: u32 = match read_plain(v, at + 2, at + 4) {
        Some(n) => n,
        None => {
            return None;
        },
    };
    let hour: i64 = match read_signed(v, at + 4, at + 6) {
        Some(n) => n,
        None => {
            return None;
        },
    };
    let minute: i64 = match read_signed(v, at + 6, at + 8) {
        Some(n) => n,
        None => {
            return None;
        },
    };
    let second: i64 = match read_signed(v, at + 8, at + 10) {
        Some(n) => n,
        None => {
            return None;
        },
    };
    let days: i64 = days_from_civil(year, month, day);
    assert(-10_000_000 <= days <= 10_000_000);
    Some(days * 86400 + hour * 3600 + minute * 60 + second)
}

/// The moment that the text of a time stands for, in seconds since 1970.
pub fn read_time(tag: u8, text: &str) -> (r: Option<i64>)
    ensures
        match r {
            Some(t) => moment_of(tag, text@) == Some(t as int),
            None => moment_of(tag, text@) is None,
        },
{
    let s = match without_suffix(text, "Z") {
        None => {
            return None;
        },
        Some(s) => s,
    };
    let chars = chars_of(s.as_str());
    let v = chars.as_slice();
    let n: usize = v.len();
    if tag == 0x17 && n == 12 {
        match read_signed(v, 0, 2) {
            Some(yy) => {
                let year: i64 = if yy < 50 {
                    2000 + yy
                } else {
                    1900 + yy
                };
                read_moment(year, v, 2)
            },
            None => None,
        }
    } else if tag == 0x18 && n == 14 {
        match read_signed(v, 0, 4) {
            Some(year) => read_moment(year, v, 4),
            None => None,
        }
    } else {
        None
    }
}

/// The moment that an element of a time stands for, in seconds since 1970.
pub fn parse_asn1_time(tag: u8, content: &[u8]) -> (r: Option<i64>)
    ensures
        match r {
            Some(t) => asn1_time(tag, content@) == Some(t as int),
            None => asn1_time(tag, content@) is None,
        },
{
    let n: usize = content.len();
    let bytes = copy_bytes(content, 0, n);
    assert(bytes@ =~= content@);
    match utf8_string(bytes) {
        None => None,
        Some(text) => read_time(tag, text.as_str()),
    }
}

/// What follows an element.
pub open spec fn after_element(d: Seq<u8>) -> Option<Seq<u8>> {
    match der_element(d) {
        Some(e) => Some(e.2),
        None => None,
    }
}

/// The contents of an element that is a sequence.
pub open spec fn sequence(d: Seq<u8>) -> Option<Seq<u8>> {
    match der_element(d) {
        Some(e) => if e.0 == 0x30 {
            Some(e.1)
        } else {
            None
        },
        None => None,
    }
}

/// The two moments of a validity.
pub open spec fn two_moments(d: Seq<u8>) -> Option<(int, int)> {
    match der_element(d) {
        None => None,
        Some(a) => match asn1_time(a.0, a.1) {
            None => None,
            Some(from) => match der_element(a.2) {
                None => None,
                Some(b) => match asn1_time(b.0, b.1) {
                    None => None,
                    Some(to) => Some((from, to)),
                },
            },
        },
    }
}

/// What stands from the serial number of a certificate on, without the version
/// that may stand before it.
pub open spec fn from_serial(tbs: Seq<u8>) -> Option<Seq<u8>> {
    match der_element(tbs) {
        None => None,
        Some(e) => if e.0 == 0xa0 {
            Some(e.2)
        } else {
            Some(tbs)
        },
    }
}

/// The field of a certificate that the serial number, the algorithm and the
/// issuer stand before.
pub open spec fn past_issuer(d: Seq<u8>) -> Option<Seq<u8>> {
    match after_element(d) {
        None => None,
        Some(a) => match after_element(a) {
            None => None,
            Some(b) => after_element(b),
        },
    }
}

/// From when and until when a certificate is valid.
pub open spec fn validity(der: Seq<u8>) -> Option<(int, int)> {
    match sequence(der) {
        None => None,
        Some(cert) => match sequence(cert) {
            None => None,
            Some(tbs) => match from_serial(tbs) {
                None => None,
                Some(s) => match past_issuer(s) {
                    None => None,
                    Some(v) => match sequence(v) {
                        None => None,
                        Some(times) => two_moments(times),
                    },
                },
            },
        },
    }
}

fn read_sequence(d: &[u8]) -> (r: Option<&[u8]>)
    ensures
        match r {
            Some(c) => sequence(d@) == Some(c@),
            None => sequence(d@) is None,
        },
{
    match der_read_tlv(d) {
        Some((tag, content, _)) => if tag == 0x30 {
            Some(content)
        } else {
            None
        },
        None => None,
    }
}

fn skip_element(d: &[u8]) -> (r: Option<&[u8]>)
    ensures
        match r {
            Some(c) => after_element(d@) == Some(c@),
            None => after_element(d@) is None,
        },
{
    match der_read_tlv(d) {
        Some((_, _, rest)) => Some(rest),
        None => None,
    }
}

fn read_moments(d: &[u8]) -> (r: Option<(i64, i64)>)
    ensures
        match r {
            Some(t) => two_moments(d@) == Some((t.0 as int, t.1 as int)),
            None => two_moments(d@) is None,
        },
{
    match der_read_tlv(d) {
        None => None,
        Some((tag_from, from, rest)) => match parse_asn1_time(tag_from, from) {
            None => None,
            Some(not_before) => match der_read_tlv(rest) {
                None => None,
                Some((tag_to, to, _)) => match parse_asn1_time(tag_to, to) {
                    None => None,
                    Some(not_after) => Some((not_before, not_after)),
                },
            },
        },
    }
}

/// From when and until when a certificate is valid, in seconds since 1970.
pub fn parse_validity(cert_der: &[u8]) -> (r: Option<(i64, i64)>)
    ensures
        match r {
            Some(t) => validity(cert_der@) == Some((t.0 as int, t.1 as int)),
            None => validity(cert_der@) is None,
        },
{
    let cert = match read_sequence(cert_der) {
        None => {
            return None;
        },
        Some(c) => c,
    };
    let tbs = match read_sequence(cert) {
        None => {
            return None;
        },
        Some(c) => c,
    };
    let serial = match der_read_tlv(tbs) {
        None => {
            return None;
        },
        Some((tag, _, next)) => if tag == 0xa0 {
            next
        } else {
            tbs
        },
    };
    let algorithm = match skip_element(serial) {
        None => {
            return None;
        },
        Some(c) => c,
    };
    let issuer = match skip_element(algorithm) {
        None => {
            return None;
        },
        Some(c) => c,
    };
    let field = match skip_element(issuer) {
        None => {
            return None;
        },
        Some(c) => c,
    };
    match read_sequence(field) {
        None => None,
        Some(times) => read_moments(times),
    }
}

/// Whether a certificate is valid at a moment.
pub open spec fn valid_at(der: Seq<u8>, now: int) -> bool {
    match validity(der) {
        Some((from, to)) => from <= now <= to,
        None => false,
    }
}

/// Whether a certificate is valid at a moment, in seconds since 1970.
pub fn cert_is_currently_valid(cert_der: &[u8], now: i64) -> (r: bool)
    ensures
        r == valid_at(cert_der@, now as int),
{
    match parse_validity(cert_der) {
        Some((from, to)) => from <= now && now <= to,
        None => false,
    }
}

// ---------------------------------------------------------------------------
// Certificates that certbot keeps
// ---------------------------------------------------------------------------

/// Where certbot keeps the certificates that are in use.
pub const LIVE_ROOT: &'static str = "/etc/letsencrypt/live";

/// The file with a certificate and those that it rests on.
pub const FULLCHAIN: &'static str = "fullchain.pem";

/// The file with a private key.
pub const PRIVKEY: &'static str = "privkey.pem";

/// A directory in which a certificate is kept.
pub struct LiveEntry {
    /// Its name.
    pub name: String,
    /// Where the file with the certificate really is, if it is there.
    pub fullchain: Option<String>,
    /// Where the file with the key really is, if it is there.
    pub privkey: Option<String>,
    /// What the file with the certificate holds, if it can be read.
    pub pem: Option<Vec<u8>>,
}

/// A directory in which a certificate is kept.
pub struct LiveEntryView {
    pub name: Seq<char>,
    pub fullchain: Option<Seq<char>>,
    pub privkey: Option<Seq<char>>,
    pub pem: Option<Seq<u8>>,
}

impl DeepView for LiveEntry {
    type V = LiveEntryView;

    open spec fn deep_view(&self) -> LiveEntryView {
        LiveEntryView {
            name: self.name@,
            fullchain: self.fullchain.deep_view(),
            privkey: self.privkey.deep_view(),
            pem: match self.pem {
                Some(b) => Some(b@),
                None => None,
            },
        }
    }
}

/// The files of the first directory of a name, from a place on, whose
/// certificate is valid now; nothing once one of that name lacks a file.
pub open spec fn live_from(e: Seq<LiveEntryView>, i: int, fqdn: Seq<char>, now: int) -> Option<
    (Seq<char>, Seq<char>),
>
    decreases e.len() - i,
{
    if i < 0 || i >= e.len() {
        None
    } else if e[i].name != fqdn {
        live_from(e, i + 1, fqdn, now)
    } else {
        match (e[i].fullchain, e[i].privkey, e[i].pem) {
            (Some(full), Some(key), Some(pem)) => match pem_certificate(pem) {
                None => None,
                Some(der) => if valid_at(der, now) {
                    Some((full, key))
                } else {
                    live_from(e, i + 1, fqdn, now)
                },
            },
            _ => None,
        }
    }
}

/// The first certificate in PEM text, if that is one.
pub fn first_pem_cert_der(pem: &[u8]) -> (r: Option<Vec<u8>>)
    ensures
        r.deep_view() == pem_certificate(pem@),
{
    pem_first_certificate(pem)
}

/// The files with a certificate for a name that is valid now, and with its key.
pub fn scan_letsencrypt_live(fqdn: &str, entries: &Vec<LiveEntry>, now: i64) -> (r: Option<
    (String, String),
>)
    ensures
        r.deep_view() == live_from(entries.deep_view(), 0, fqdn@, now as int),
{
    let ghost all = entries.deep_view();
    let n: usize = entries.len();
    let mut i: usize = 0;
    while i < n
        invariant
            i <= n,
            n == entries@.len(),
            all == entries.deep_view(),
            live_from(all, 0, fqdn@, now as int) == live_from(all, i as int, fqdn@, now as int),
        decreases n - i,
    {
        assert(all[i as int] == entries@[i as int].deep_view());
        let e = &entries[i];
        if e.name.as_str().eq(fqdn) {
            let full = match &e.fullchain {
                Some(p) => p.clone(),
                None => {
                    return None;
                },
            };
            let key = match &e.privkey {
                Some(p) => p.clone(),
                None => {
                    return None;
                },
            };
            let der = match &e.pem {
                Some(pem) => match first_pem_cert_der(pem.as_slice()) {
                    Some(der) => der,
                    None => {
                        return None;
                    },
                },
                None => {
                    return None;
                },
            };
            assert(der.deep_view() =~= der@);
            if cert_is_currently_valid(der.as_slice(), now) {
                return Some((full, key));
            }
        }
        i = i + 1;
    }
    None
}

// ---------------------------------------------------------------------------
// Which certificate
// ---------------------------------------------------------------------------

/// A step on the way to a certificate.
#[derive(Debug, Clone, Copy, PartialEq, Eq, Structural)]
pub enum Stage {
    /// Looking for one that certbot keeps.
    Scan,
    /// Loading it.
    LoadLive,
    /// Asking the authority for one.
    Obtain,
    /// Loading that.
    LoadObtained,
    /// Making one that the server signs itself.
    Generate,
    /// Loading that.
    LoadGenerated,
    /// There is one.
    Loaded,
    /// There is none.
    Failed,
}

/// The step after one of certbot has not been had: the authority is asked where
/// it could reach the server.
pub open spec fn without_live(public: bool) -> Stage {
    if public {
        Stage::Obtain
    } else {
        Stage::Generate
    }
}

/// The step after another one, which did what it should or did not.
pub open spec fn stage_after(s: Stage, done: bool, public: bool) -> Stage {
    match s {
        Stage::Scan => if done {
            Stage::LoadLive
        } else {
            without_live(public)
        },
        Stage::LoadLive => if done {
            Stage::Loaded
        } else {
            without_live(public)
        },
        Stage::Obtain => if done {
            Stage::LoadObtained
        } else {
            Stage::Generate
        },
        Stage::LoadObtained => if done {
            Stage::Loaded
        } else {
            Stage::Generate
        },
        Stage::Generate => if done {
            Stage::LoadGenerated
        } else {
            Stage::Failed
        },
        Stage::LoadGenerated => if done {
            Stage::Loaded
        } else {
            Stage::Failed
        },
        _ => s,
    }
}

/// What is told where a step did not do what it should.
pub open spec fn told(s: Stage, fqdn: Seq<char>, err: Seq<char>) -> Option<Seq<char>> {
    match s {
        Stage::LoadLive => Some(
            "found Let's Encrypt live cert for "@ + fqdn
                + " but failed to load it; falling through"@,
        ),
        Stage::Obtain => Some(
            "ACME certificate request for "@ + fqdn + " failed ("@ + err
                + "); falling back to a self-signed certificate"@,
        ),
        _ => None,
    }
}

impl Stage {
    /// The step after this one, which did what it should or did not, for a server
    /// that listens at an address.
    pub fn after(self, done: bool, listen: &str) -> (r: Stage)
        ensures
            r == stage_after(self, done, public_addr(listen@)),
    {
        let next = if is_public_addr(listen) {
            Stage::Obtain
        } else {
            Stage::Generate
        };
        match self {
            Stage::Scan => if done {
                Stage::LoadLive
            } else {
                next
            },
            Stage::LoadLive => if done {
                Stage::Loaded
            } else {
                next
            },
            Stage::Obtain => if done {
                Stage::LoadObtained
            } else {
                Stage::Generate
            },
            Stage::LoadObtained => if done {
                Stage::Loaded
            } else {
                Stage::Generate
            },
            Stage::Generate => if done {
                Stage::LoadGenerated
            } else {
                Stage::Failed
            },
            Stage::LoadGenerated => if done {
                Stage::Loaded
            } else {
                Stage::Failed
            },
            _ => self,
        }
    }

    /// What is told where the step did not do what it should.
    pub fn warning(self, fqdn: &str, err: &str) -> (r: Option<String>)
        ensures
            r.deep_view() == told(self, fqdn@, err@),
    {
        match self {
            Stage::LoadLive => {
                let mut s = "found Let's Encrypt live cert for ".to_owned();
                s.append(fqdn);
                s.append(" but failed to load it; falling through");
                Some(s)
            },
            Stage::Obtain => {
                let mut s = "ACME certificate request for ".to_owned();
                s.append(fqdn);
                s.append(" failed (");
                s.append(err);
                s.append("); falling back to a self-signed certificate");
                Some(s)
            },
            _ => None,
        }
    }
}

/// How many steps may follow at most.
pub open spec fn steps_left(s: Stage) -> int {
    match s {
        Stage::Scan => 6,
        Stage::LoadLive => 5,
        Stage::Obtain => 4,
        Stage::LoadObtained => 3,
        Stage::Generate => 2,
        Stage::LoadGenerated => 1,
        Stage::Loaded => 0,
        Stage::Failed => 0,
    }
}

// ---------------------------------------------------------------------------
// Certificates and keys in files
// ---------------------------------------------------------------------------

/// What is wrong with a file without a certificate.
pub const NO_CERTIFICATES: &'static str = "no certificates found in fullchain PEM";

/// What is wrong with a file without a key.
pub const NO_KEY: &'static str = "no private key found in PEM";

/// The certificates in a file, where there is at least one.
pub open spec fn chain_of(read: Result<Seq<Seq<u8>>, Seq<char>>) -> Result<
    Seq<Seq<u8>>,
    Seq<char>,
> {
    match read {
        Err(e) => Err(e),
        Ok(l) => if l.len() == 0 {
            Err(NO_CERTIFICATES@)
        } else {
            Ok(l)
        },
    }
}

/// The key in a file.
pub open spec fn key_of(read: Result<Option<Seq<u8>>, Seq<char>>) -> Result<Seq<u8>, Seq<char>> {
    match read {
        Err(e) => Err(e),
        Ok(None) => Err(NO_KEY@),
        Ok(Some(k)) => Ok(k),
    }
}

/// The certificates in PEM text, given what was read of it.
pub fn read_chain(read: Result<Vec<Vec<u8>>, String>) -> (r: Result<Vec<Vec<u8>>, String>)
    ensures
        match (read, r) {
            (Ok(l), Ok(c)) => chain_of(Ok(l.deep_view())) == Ok::<Seq<Seq<u8>>, Seq<char>>(
                c.deep_view(),
            ) && c == l,
            (Ok(l), Err(e)) => chain_of(Ok(l.deep_view())) == Err::<Seq<Seq<u8>>, Seq<char>>(e@),
            (Err(m), Err(e)) => chain_of(Err(m@)) == Err::<Seq<Seq<u8>>, Seq<char>>(e@),
            (Err(_), Ok(_)) => false,
        },
{
    match read {
        Err(e) => Err(e),
        Ok(l) => if l.len() == 0 {
            Err(NO_CERTIFICATES.to_owned())
        } else {
            Ok(l)
        },
    }
}

/// The certificates in PEM text.
pub fn certificate_chain(pem: &[u8]) -> (r: Result<Vec<Vec<u8>>, String>)
    ensures
        match r {
            Ok(c) => chain_of(pem_chain(pem@)) == Ok::<Seq<Seq<u8>>, Seq<char>>(c.deep_view())
                && pem_certificate(pem@) == Some(c@[0]@),
            Err(e) => chain_of(pem_chain(pem@)) == Err::<Seq<Seq<u8>>, Seq<char>>(e@),
        },
{
    read_chain(pem_certificates(pem))
}

/// The key in PEM text, given what was read of it.
pub fn read_key(read: Result<Option<Vec<u8>>, String>) -> (r: Result<Vec<u8>, String>)
    ensures
        match (read, r) {
            (Ok(k), Ok(b)) => key_of(Ok(k.deep_view())) == Ok::<Seq<u8>, Seq<char>>(b@),
            (Ok(k), Err(e)) => key_of(Ok(k.deep_view())) == Err::<Seq<u8>, Seq<char>>(e@),
            (Err(m), Err(e)) => key_of(Err(m@)) == Err::<Seq<u8>, Seq<char>>(e@),
            (Err(_), Ok(_)) => false,
        },
{
    match read {
        Err(e) => Err(e),
        Ok(None) => Err(NO_KEY.to_owned()),
        Ok(Some(k)) => {
            assert(k.deep_view() =~= k@);
            Ok(k)
        },
    }
}

/// The private key in PEM text.
pub fn private_key(pem: &[u8]) -> (r: Result<Vec<u8>, String>)
    ensures
        match r {
            Ok(k) => key_of(pem_key(pem@)) == Ok::<Seq<u8>, Seq<char>>(k@),
            Err(e) => key_of(pem_key(pem@)) == Err::<Seq<u8>, Seq<char>>(e@),
        },
{
    read_key(pem_private_key(pem))
}

// ---------------------------------------------------------------------------
// Own certificates
// ---------------------------------------------------------------------------

/// How long a certificate of the server's own is valid, in seconds: ten years.
pub const OWN_VALIDITY: i64 = 315_360_000;

/// Why a certificate, or a request for one, could not be made.
#[derive(Debug)]
pub enum CertFault {
    /// The name cannot stand in it.
    Name(String),
    /// There is no key for it.
    Key(String),
    /// It could not be made of both.
    Made(String),
}

/// What is wrong with text as a host name.
pub open spec fn name_fault(name: Seq<char>) -> Seq<char> {
    "Invalid IA5String: '"@ + name + "'"@
}

/// Whether something can be wrong with a certificate for a name: only text that is
/// not ASCII cannot stand in it.
pub open spec fn fault_fits(f: CertFault, name: Seq<char>) -> bool {
    match f {
        CertFault::Name(e) => !is_ascii_text(name) && e@ == name_fault(name),
        _ => is_ascii_text(name),
    }
}

/// What is said where no certificate could be made.
pub open spec fn no_certificate(f: CertFault) -> Seq<char> {
    match f {
        CertFault::Name(e) => "invalid certificate params: "@ + e@,
        CertFault::Key(e) => "key generation failed: "@ + e@,
        CertFault::Made(e) => "self-signed cert generation failed: "@ + e@,
    }
}

/// What is said where no certificate could be made.
pub fn own_failure(fault: &CertFault) -> (r: String)
    ensures
        r@ == no_certificate(*fault),
{
    match fault {
        CertFault::Name(e) => with_cause("invalid certificate params: ", e.as_str()),
        CertFault::Key(e) => with_cause("key generation failed: ", e.as_str()),
        CertFault::Made(e) => with_cause("self-signed cert generation failed: ", e.as_str()),
    }
}

/// Whether PEM text holds one certificate, for a name and for ten years from a
/// moment on, and other PEM text the key that belongs to it.
pub open spec fn is_own(cert: Seq<u8>, key: Seq<u8>, name: Seq<char>, now: int) -> bool {
    &&& certified_names(cert) == host_names(name)
    &&& match pem_certificate(cert) {
        Some(der) => {
            &&& validity(der) == Some((now, now + OWN_VALIDITY))
            &&& pem_chain(cert) == Ok::<Seq<Seq<u8>>, Seq<char>>(seq![der])
        },
        None => false,
    }
    &&& holds_key_for(key, certified_key(cert))
}

/// Whether PEM text holds the private key that a public one belongs to.
pub open spec fn holds_key_for(pem: Seq<u8>, point: Seq<u8>) -> bool {
    match pem_key(pem) {
        Ok(Some(k)) => ecdsa_point(k) == Some(point),
        _ => false,
    }
}

/// Makes a certificate for a name that is valid from now on, with its key, both as
/// PEM text. A name that is not ASCII is refused; with another one, only a lack of
/// randomness stands in the way.
pub fn generate_self_signed(fqdn: &str, now: i64) -> (r: Result<(String, String), String>)
    requires
        0 <= now <= TIME_MAX - OWN_VALIDITY,
    ensures
        match r {
            Ok((cert, key)) => {
                &&& is_ascii_text(fqdn@)
                &&& is_own(encode_utf8(cert@), encode_utf8(key@), fqdn@, now as int)
            },
            Err(e) => exists|f: CertFault| #[trigger]
                no_certificate(f) == e@ && fault_fits(f, fqdn@),
        },
{
    let fault = match certificate_params(fqdn) {
        Err(e) => CertFault::Name(e),
        Ok(params) => match certificate_key() {
            Err(e) => CertFault::Key(e),
            Ok(key) => match self_signed_pem(params, &key, now, now + OWN_VALIDITY) {
                Err(e) => CertFault::Made(e),
                Ok(pem) => return Ok((pem, certificate_key_pem(&key))),
            },
        },
    };
    Err(own_failure(&fault))
}

/// A message with its cause.
pub(crate) fn with_cause(message: &str, cause: &str) -> (r: String)
    ensures
        r@ == message@ + cause@,
{
    let mut s = message.to_owned();
    s.append(cause);
    s
}

// ---------------------------------------------------------------------------
// Laws
// ---------------------------------------------------------------------------

/// The way to a certificate comes to an end, whatever happens on it.
pub proof fn the_way_ends(s: Stage, done: bool, public: bool)
    requires
        steps_left(s) > 0,
    ensures
        0 <= steps_left(stage_after(s, done, public)) < steps_left(s),
{
}

/// The authority is never asked for a server that it could not reach.
pub proof fn private_servers_ask_nobody(s: Stage, done: bool)
    requires
        s != Stage::Obtain,
    ensures
        stage_after(s, done, false) != Stage::Obtain,
{
}

/// As long as a step does what it should, the server does not sign its own
/// certificate, unless that step came after all others.
pub proof fn own_certificates_come_last(s: Stage, public: bool)
    ensures
        stage_after(s, true, public) == Stage::Generate ==> s == Stage::Generate,
        stage_after(s, true, public) != Stage::Failed || s == Stage::Failed,
{
}

/// A certificate that certbot keeps is used for its own name alone, and only
/// while it is valid.
pub proof fn live_certificates_are_valid(
    e: Seq<LiveEntryView>,
    i: int,
    fqdn: Seq<char>,
    now: int,
)
    requires
        0 <= i,
        live_from(e, i, fqdn, now) is Some,
    ensures
        exists|j: int|
            i <= j < e.len() && (#[trigger] e[j]).name == fqdn && e[j].pem is Some
                && pem_certificate(e[j].pem->0) is Some && valid_at(
                pem_certificate(e[j].pem->0)->0,
                now,
            ) && live_from(e, i, fqdn, now) == Some((e[j].fullchain->0, e[j].privkey->0)),
    decreases e.len() - i,
{
    if e[i].name == fqdn && valid_at(pem_certificate(e[i].pem->0)->0, now) {
        assert(e[i].name == fqdn);
    } else {
        live_certificates_are_valid(e, i + 1, fqdn, now);
    }
}

/// A certificate of the server's own can be loaded with its key, which belongs to
/// it, and it is valid for ten years from when it was made.
pub proof fn own_certificates_last_ten_years(
    cert: Seq<u8>,
    key: Seq<u8>,
    name: Seq<char>,
    now: int,
    later: int,
)
    requires
        is_own(cert, key, name, now),
        now <= later <= now + 10 * 365 * 86400,
    ensures
        chain_of(pem_chain(cert)) matches Ok(chain) && valid_at(chain[0], later),
        key_of(pem_key(key)) matches Ok(k) && ecdsa_point(k) == Some(certified_key(cert)),
{
}

} // verus!
