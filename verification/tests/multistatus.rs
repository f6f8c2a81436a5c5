//! The XML document model: tokenizing, multistatus parsing with
//! namespace-prefix variability, order preservation, and the typed
//! extraction of addressbooks and cards.

use cardamum::model::{addressbooks_of, card_id, cards_of, href_id, status_success};
use cardamum::xml::{parse_multistatus, tokenize, XmlToken};

const TWO_BOOKS: &str = r#"<?xml version="1.0" encoding="utf-8" ?>
<D:multistatus xmlns:D="DAV:" xmlns:C="urn:ietf:params:xml:ns:carddav">
  <D:response>
    <D:href>/home/personal/</D:href>
    <D:propstat>
      <D:prop>
        <D:resourcetype><D:collection/><C:addressbook/></D:resourcetype>
        <D:displayname>Personal</D:displayname>
      </D:prop>
      <D:status>HTTP/1.1 200 OK</D:status>
    </D:propstat>
  </D:response>
  <D:response>
    <D:href>/home/notes/</D:href>
    <D:propstat>
      <D:prop>
        <D:resourcetype><D:collection/></D:resourcetype>
        <D:displayname>Notes</D:displayname>
      </D:prop>
      <D:status>HTTP/1.1 200 OK</D:status>
    </D:propstat>
  </D:response>
</D:multistatus>"#;

#[test]
fn marked_entries_become_addressbooks_and_keep_their_name() {
    let ms = parse_multistatus(TWO_BOOKS.as_bytes()).expect("well-formed body");
    assert_eq!(ms.responses.len(), 2);
    let books = addressbooks_of(&ms);
    assert_eq!(books.len(), 1);
    assert_eq!(books[0].id, b"personal".to_vec());
    assert_eq!(books[0].display_name, Some(b"Personal".to_vec()));
    assert_eq!(books[0].description, None);
    assert_eq!(books[0].color, None);
}

#[test]
fn response_order_is_preserved() {
    let ms = parse_multistatus(TWO_BOOKS.as_bytes()).expect("well-formed body");
    assert_eq!(ms.responses[0].href, b"/home/personal/".to_vec());
    assert_eq!(ms.responses[1].href, b"/home/notes/".to_vec());
}

#[test]
fn propstat_order_does_not_change_the_parse() {
    let status_first = r#"<multistatus xmlns="DAV:">
      <response>
        <href>/a/</href>
        <propstat>
          <status>HTTP/1.1 200 OK</status>
          <prop><displayname>A</displayname></prop>
        </propstat>
      </response>
    </multistatus>"#;
    let prop_first = r#"<multistatus xmlns="DAV:">
      <response>
        <href>/a/</href>
        <propstat>
          <prop><displayname>A</displayname></prop>
          <status>HTTP/1.1 200 OK</status>
        </propstat>
      </response>
    </multistatus>"#;
    let a = parse_multistatus(status_first.as_bytes()).expect("parses");
    let b = parse_multistatus(prop_first.as_bytes()).expect("parses");
    assert_eq!(a.responses.len(), 1);
    assert_eq!(b.responses.len(), 1);
    assert_eq!(a.responses[0].propstats[0].status, b"HTTP/1.1 200 OK".to_vec());
    assert_eq!(b.responses[0].propstats[0].status, b"HTTP/1.1 200 OK".to_vec());
    assert_eq!(
        a.responses[0].propstats[0].props[0].text,
        b.responses[0].propstats[0].props[0].text
    );
}

#[test]
fn unprefixed_and_prefixed_namespaces_parse_alike() {
    let unprefixed = r#"<multistatus xmlns="DAV:"><response><href>/x/</href></response></multistatus>"#;
    let prefixed = r#"<D:multistatus xmlns:D="DAV:"><D:response><D:href>/x/</D:href></D:response></D:multistatus>"#;
    let a = parse_multistatus(unprefixed.as_bytes()).expect("parses");
    let b = parse_multistatus(prefixed.as_bytes()).expect("parses");
    assert_eq!(a.responses[0].href, b.responses[0].href);
}

#[test]
fn an_empty_multistatus_lists_nothing() {
    let ms = parse_multistatus(b"<multistatus />").expect("parses");
    assert_eq!(ms.responses.len(), 0);
    assert_eq!(addressbooks_of(&ms).len(), 0);
    assert_eq!(cards_of(&ms, b"x").len(), 0);
}

#[test]
fn malformed_bodies_fail_as_a_unit() {
    assert!(parse_multistatus(b"<multistatus><response>").is_none());
    assert!(parse_multistatus(b"not xml at all").is_none());
    assert!(parse_multistatus(b"<other />").is_none());
    assert!(parse_multistatus(b"").is_none());
}

#[test]
fn tokenizer_reads_tags_text_and_self_closing_elements() {
    let toks = tokenize(b"<?xml version=\"1.0\"?><a:x attr=\"v\"><y/>text</a:x>").unwrap();
    assert_eq!(toks.len(), 4);
    match &toks[0] {
        XmlToken::Open(n) => assert_eq!(n, &b"x".to_vec()),
        _ => panic!("expected an opening tag"),
    }
    match &toks[1] {
        XmlToken::Empty(n) => assert_eq!(n, &b"y".to_vec()),
        _ => panic!("expected a self-closing tag"),
    }
    match &toks[2] {
        XmlToken::Text(t) => assert_eq!(t, &b"text".to_vec()),
        _ => panic!("expected text"),
    }
    match &toks[3] {
        XmlToken::Close(n) => assert_eq!(n, &b"x".to_vec()),
        _ => panic!("expected a closing tag"),
    }
}

#[test]
fn cards_are_read_with_their_vcard_text() {
    let body = r#"<multistatus xmlns="DAV:" xmlns:C="urn:ietf:params:xml:ns:carddav">
      <response>
        <href>/home/personal/a1.vcf</href>
        <propstat>
          <prop><C:address-data>BEGIN:VCARD
VERSION:3.0
UID:a1
END:VCARD</C:address-data></prop>
          <status>HTTP/1.1 200 OK</status>
        </propstat>
      </response>
    </multistatus>"#;
    let ms = parse_multistatus(body.as_bytes()).expect("parses");
    let cards = cards_of(&ms, b"personal");
    assert_eq!(cards.len(), 1);
    assert_eq!(cards[0].id, b"a1".to_vec());
    assert_eq!(cards[0].addressbook_id, b"personal".to_vec());
    let content = String::from_utf8(cards[0].content.clone()).unwrap();
    assert!(content.contains("UID:a1"));
}

#[test]
fn failed_propstats_are_not_counted() {
    let body = r#"<multistatus xmlns="DAV:" xmlns:C="urn:ietf:params:xml:ns:carddav">
      <response>
        <href>/home/x/</href>
        <propstat>
          <prop><resourcetype><C:addressbook/></resourcetype></prop>
          <status>HTTP/1.1 404 Not Found</status>
        </propstat>
      </response>
    </multistatus>"#;
    let ms = parse_multistatus(body.as_bytes()).expect("parses");
    assert_eq!(addressbooks_of(&ms).len(), 0);
}

#[test]
fn href_identifiers_drop_slashes_and_extensions() {
    assert_eq!(href_id(b"/home/personal/"), b"personal".to_vec());
    assert_eq!(href_id(b"/home/personal"), b"personal".to_vec());
    assert_eq!(card_id(b"/home/personal/a1.vcf"), Some(b"a1".to_vec()));
    assert_eq!(card_id(b"/home/personal/a1.vcf/"), Some(b"a1".to_vec()));
    assert_eq!(card_id(b"plain"), None);
}

#[test]
fn status_success_looks_for_a_two_hundred() {
    assert!(status_success(b"HTTP/1.1 200 OK"));
    assert!(status_success(b"HTTP/1.1 207 Multi-Status"));
    assert!(!status_success(b"HTTP/1.1 404 Not Found"));
}
