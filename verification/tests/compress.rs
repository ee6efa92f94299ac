use std::io::Read;

use cashttpd::servers::compress::{
    add_vary, attach_encoded, encode, is_compressible, is_positive, maybe_compress, negotiate,
    Encoding, BROTLI_BUFFER, MIN_COMPRESSIBLE_BODY,
};
use cashttpd::servers::http::{Body, Response};

fn response(status: u16, headers: &[(&str, &str)], body: &[u8]) -> Response {
    Response {
        status,
        reason: "OK".to_string(),
        body: Body::Bytes(body.to_vec()),
        head_only: false,
        headers: headers.iter().map(|(k, v)| (k.to_string(), v.to_string())).collect(),
    }
}

fn text_response(body: &[u8]) -> Response {
    response(200, &[("content-type", "text/html; charset=utf-8")], body)
}

fn filler() -> Vec<u8> {
    "<p>cashttpd compression fixture</p>".repeat(64).into_bytes()
}

fn field<'a>(r: &'a Response, name: &str) -> Option<&'a str> {
    r.headers
        .iter()
        .find(|(k, _)| k.eq_ignore_ascii_case(name))
        .map(|(_, v)| v.as_str())
}

fn bytes(r: &Response) -> &[u8] {
    match &r.body {
        Body::Bytes(b) => b,
        _ => panic!("bytes expected"),
    }
}

#[test]
fn negotiate_prefers_brotli_over_gzip() {
    assert_eq!(negotiate("gzip, deflate, br"), Some(Encoding::Br));
    assert_eq!(negotiate("br;q=1.0, gzip;q=0.8"), Some(Encoding::Br));
}

#[test]
fn negotiate_falls_back_to_gzip_when_brotli_is_absent_or_rejected() {
    assert_eq!(negotiate("gzip, deflate"), Some(Encoding::Gzip));
    assert_eq!(negotiate("br;q=0, gzip"), Some(Encoding::Gzip));
}

#[test]
fn negotiate_returns_none_when_no_supported_coding_is_acceptable() {
    assert_eq!(negotiate(""), None);
    assert_eq!(negotiate("deflate, zstd"), None);
    assert_eq!(negotiate("br;q=0, gzip;q=0"), None);
    assert_eq!(negotiate("identity"), None);
}

#[test]
fn negotiate_uses_wildcard_only_for_unnamed_codings() {
    assert_eq!(negotiate("*"), Some(Encoding::Br));
    assert_eq!(negotiate("br;q=0, *"), Some(Encoding::Gzip));
    assert_eq!(negotiate("*;q=0"), None);
}

#[test]
fn compressible_types_are_text_shaped_only() {
    assert!(is_compressible("text/html; charset=utf-8"));
    assert!(is_compressible("application/json"));
    assert!(is_compressible("image/svg+xml"));
    assert!(is_compressible("application/vnd.api+json"));
    assert!(!is_compressible("image/png"));
    assert!(!is_compressible("video/mp4"));
    assert!(!is_compressible("font/woff2"));
    assert!(!is_compressible(""));
}

#[test]
fn encoded_output_round_trips_for_both_codings() {
    let data = filler();
    let gz = encode(Encoding::Gzip, &data).unwrap();
    let mut decoded = Vec::new();
    flate2::read::GzDecoder::new(&gz[..]).read_to_end(&mut decoded).unwrap();
    assert_eq!(decoded, data);

    let br = encode(Encoding::Br, &data).unwrap();
    let mut decoded = Vec::new();
    brotli::Decompressor::new(&br[..], BROTLI_BUFFER).read_to_end(&mut decoded).unwrap();
    assert_eq!(decoded, data);
    assert_ne!(gz, data);
    assert_ne!(br, data);
}

#[test]
fn compressible_response_gains_content_encoding_and_vary() {
    let mut response = text_response(&filler());
    maybe_compress(&mut response, Some("gzip, br"));
    assert_eq!(field(&response, "content-encoding"), Some("br"));
    assert_eq!(field(&response, "vary"), Some("Accept-Encoding"));
}

#[test]
fn uncompressed_response_still_advertises_vary() {
    let mut response = text_response(&filler());
    maybe_compress(&mut response, None);
    assert!(field(&response, "content-encoding").is_none());
    assert_eq!(field(&response, "vary"), Some("Accept-Encoding"));
}

#[test]
fn binary_content_type_is_never_compressed_or_varied() {
    let mut r = response(200, &[("content-type", "image/png")], &filler());
    maybe_compress(&mut r, Some("br, gzip"));
    assert!(field(&r, "content-encoding").is_none());
    assert!(field(&r, "vary").is_none());
}

#[test]
fn range_response_is_never_compressed() {
    let mut r = response(
        206,
        &[
            ("content-type", "text/plain; charset=utf-8"),
            ("content-range", "bytes 0-1023/4096"),
        ],
        &filler(),
    );
    maybe_compress(&mut r, Some("br, gzip"));
    assert!(field(&r, "content-encoding").is_none());
}

#[test]
fn response_with_its_own_content_encoding_is_left_alone() {
    let mut r = response(
        200,
        &[("content-type", "text/plain; charset=utf-8"), ("content-encoding", "gzip")],
        &filler(),
    );
    maybe_compress(&mut r, Some("br"));
    assert_eq!(field(&r, "content-encoding"), Some("gzip"));
}

#[test]
fn tiny_body_is_left_uncompressed() {
    let mut response = text_response(b"hi");
    maybe_compress(&mut response, Some("br, gzip"));
    assert!(field(&response, "content-encoding").is_none());
}

#[test]
fn compressed_body_decodes_back_to_the_original_bytes() {
    let data = filler();
    let mut response = text_response(&data);
    maybe_compress(&mut response, Some("gzip"));
    assert_eq!(field(&response, "content-encoding"), Some("gzip"));
    let sent = bytes(&response);
    assert_eq!(
        field(&response, "content-length"),
        Some(sent.len().to_string().as_str())
    );
    let mut decoded = Vec::new();
    flate2::read::GzDecoder::new(sent).read_to_end(&mut decoded).unwrap();
    assert_eq!(decoded, data);
}

#[test]
fn the_list_of_what_a_response_depends_on_is_kept() {
    let mut h = vec![("Vary".to_string(), "Origin".to_string())];
    add_vary(&mut h);
    assert_eq!(h, vec![("vary".to_string(), "Origin, Accept-Encoding".to_string())]);
    add_vary(&mut h);
    assert_eq!(h.len(), 1);
    let mut known = vec![("Vary".to_string(), "origin, accept-ENCODING".to_string())];
    add_vary(&mut known);
    assert_eq!(known[0].1, "origin, accept-ENCODING");
}

#[test]
fn longer_encodings_and_failed_ones_are_not_sent() {
    let mut r = text_response(&filler());
    attach_encoded(&mut r, Encoding::Gzip, None);
    assert_eq!(bytes(&r), filler());
    attach_encoded(&mut r, Encoding::Gzip, Some(vec![0; filler().len()]));
    assert_eq!(bytes(&r), filler());
    attach_encoded(&mut r, Encoding::Gzip, Some(vec![1, 2, 3]));
    assert_eq!(bytes(&r), [1, 2, 3]);
    assert_eq!(field(&r, "content-length"), Some("3"));
    let mut head = text_response(&filler());
    head.head_only = true;
    maybe_compress(&mut head, Some("br"));
    assert!(field(&head, "content-encoding").is_none());
    assert_eq!(MIN_COMPRESSIBLE_BODY, 256);
}

#[test]
fn weights_are_positive_where_single_precision_says_so() {
    for text in [
        "1", "0", "0.0", "0.5", ".5", "5.", ".", "", "+", "-", "-0", "+1", "-1", "1e", "1e5", "1e-5",
        "1E-45", "7e-46", "8e-46", "7.006e-46", "7.007e-46", "1e-46", "1e400", "1e-400", "0e9",
        "0x1", "inf", "INF", "+infinity", "-inf", "nan", "NaN", "1 ", "1_0", "00000.00001e3",
        "1e99999999999999999999", "1e-99999999999999999999",
        "0.0000000000000000000000000000000000000000000007006492321624085354618",
        "0.0000000000000000000000000000000000000000000007006492321624085354619",
        "700649232162408535461864791644958065640130970938257885878534141944895541342930300743319094181060791015625e-150",
        "700649232162408535461864791644958065640130970938257885878534141944895541342930300743319094181060791015626e-150",
    ] {
        let expected = text.parse::<f32>().map(|q| q > 0.0).unwrap_or(false);
        assert_eq!(is_positive(text), expected, "{text}");
    }
}

#[test]
fn responses_are_encoded_once() {
    for accept in [Some("br"), Some("gzip"), Some("identity"), None] {
        let mut once = text_response(&filler());
        maybe_compress(&mut once, accept);
        let (body, headers) = (bytes(&once).to_vec(), once.headers.clone());
        maybe_compress(&mut once, accept);
        assert_eq!(bytes(&once), body);
        assert_eq!(once.headers, headers);
    }
}

#[test]
fn programs_of_the_browser_are_sent_as_they_are() {
    assert!(!is_compressible("application/wasm"));
    assert!(is_compressible("application/json"));
}

#[test]
fn encoded_bodies_can_be_decoded() {
    for data in [filler(), Vec::new(), vec![0, 255, 7]] {
        let mut plain = Vec::new();
        let packed = encode(Encoding::Gzip, &data).unwrap();
        flate2::read::GzDecoder::new(packed.as_slice()).read_to_end(&mut plain).unwrap();
        assert_eq!(plain, data);
        plain.clear();
        let packed = encode(Encoding::Br, &data).unwrap();
        brotli::Decompressor::new(packed.as_slice(), 4096).read_to_end(&mut plain).unwrap();
        assert_eq!(plain, data);
    }
}
