//! Request construction: wire shape, parse-back of method, URI and
//! header values, and date-independence of everything else.

use base64::Engine;
use cardamum::framer::header_value;
use cardamum::request::{parsed_method, parsed_uri, Request};

fn find(haystack: &[u8], needle: &[u8]) -> Option<usize> {
    haystack.windows(needle.len()).position(|w| w == needle)
}

/// The bytes with the date stamp cut out, and the stamp itself.
fn split_date(bytes: &[u8]) -> (Vec<u8>, Vec<u8>) {
    let start = find(bytes, b"Date: ").expect("no date header") + b"Date: ".len();
    let end = start + find(&bytes[start..], b"\r\n").expect("unterminated date");
    let mut rest = Vec::new();
    rest.extend_from_slice(&bytes[..start]);
    rest.extend_from_slice(&bytes[end..]);
    (rest, bytes[start..end].to_vec())
}

#[test]
fn request_line_and_headers_have_the_documented_shape() {
    let req = Request::propfind("/home/")
        .content_type_xml()
        .basic_auth("user", "pass")
        .depth("1")
        .body("<propfind />");
    let bytes = req.into_bytes();
    assert!(bytes.starts_with(b"PROPFIND /home/ HTTP/1.1\r\nDate: "));
    let expected_cred = base64::engine::general_purpose::STANDARD.encode(b"user:pass");
    let auth_header = format!("Authorization: Basic {expected_cred}\r\n");
    assert!(find(&bytes, auth_header.as_bytes()).is_some());
    assert!(find(&bytes, b"Content-Type: application/xml; charset=utf-8\r\n").is_some());
    assert!(find(&bytes, b"Depth: 1\r\n").is_some());
    assert!(bytes.ends_with(b"Content-Length: 12\r\n\r\n<propfind />"));
}

#[test]
fn method_and_uri_parse_back() {
    let bytes = Request::report("/books/all").body("x").into_bytes();
    assert_eq!(parsed_method(&bytes), Some(b"REPORT".to_vec()));
    assert_eq!(parsed_uri(&bytes), Some(b"/books/all".to_vec()));
}

#[test]
fn header_values_parse_back() {
    let bytes = Request::put("/c/1.vcf")
        .content_type_vcard()
        .bearer_auth("abc123token")
        .depth("0")
        .body("BEGIN:VCARD\r\nEND:VCARD\r\n")
        .into_bytes();
    assert_eq!(
        header_value(&bytes, b"Authorization"),
        Some(b"Bearer abc123token".to_vec())
    );
    assert_eq!(header_value(&bytes, b"Depth"), Some(b"0".to_vec()));
    assert_eq!(header_value(&bytes, b"Content-Length"), Some(b"24".to_vec()));
    assert_eq!(
        header_value(&bytes, b"Content-Type"),
        Some(b"text/vcard; charset=utf-8".to_vec())
    );
    let date = header_value(&bytes, b"Date").expect("date header");
    assert!(date.ends_with(b" GMT"));
}

#[test]
fn identical_inputs_differ_only_in_the_date() {
    let build = || {
        Request::mkcol("/home/new-book")
            .content_type_xml()
            .basic_auth("u", "p")
            .body("<mkcol />")
            .into_bytes()
    };
    let first = build();
    let second = build();
    let (first_rest, _) = split_date(&first);
    let (second_rest, _) = split_date(&second);
    assert_eq!(first_rest, second_rest);
}

#[test]
fn all_webdav_methods_are_available() {
    for (bytes, m) in [
        (Request::propfind("/").body("").into_bytes(), &b"PROPFIND"[..]),
        (Request::report("/").body("").into_bytes(), b"REPORT"),
        (Request::mkcol("/").body("").into_bytes(), b"MKCOL"),
        (Request::proppatch("/").body("").into_bytes(), b"PROPPATCH"),
        (Request::put("/").body("").into_bytes(), b"PUT"),
        (Request::delete("/").body("").into_bytes(), b"DELETE"),
        (Request::get("/").body("").into_bytes(), b"GET"),
    ] {
        assert_eq!(parsed_method(&bytes), Some(m.to_vec()));
    }
}

#[test]
fn content_length_counts_bytes_and_sits_last() {
    let bytes = Request::new("PUT", "/x").body("abcde").into_bytes();
    assert!(bytes.ends_with(b"Content-Length: 5\r\n\r\nabcde"));
}

#[test]
fn empty_body_still_terminates_the_head() {
    let bytes = Request::delete("/x").body("").into_bytes();
    assert!(bytes.ends_with(b"Content-Length: 0\r\n\r\n"));
}
