//! The per-operation flows, driven against scripted responses.

use cardamum::commands::{
    AddressbookSubcommand, CardSubcommand, CreateAddressbookCommand, DeleteAddressbookCommand,
    DeleteCardCommand, ListCardsCommand, UpdateAddressbookCommand,
};
use cardamum::flow::{Io, ProtocolError, SendReceiveFlow};
use cardamum::model::{Addressbook, Card};
use cardamum::ops::{
    Auth, CarddavConfig, CreateAddressbookFlow, CreateCardFlow, DeleteAddressbookFlow,
    DeleteCardFlow, ListAddressbooksFlow, ListCardsFlow, ReadCardFlow, UpdateAddressbookFlow,
    UpdateCardFlow,
};

fn config() -> CarddavConfig {
    CarddavConfig {
        home_path: String::from("/home"),
        auth: Auth::Basic { username: String::from("u"), password: String::from("p") },
    }
}

fn respond(status_line: &str, body: &[u8]) -> Vec<u8> {
    let mut r = Vec::new();
    r.extend_from_slice(status_line.as_bytes());
    r.extend_from_slice(b"\r\n");
    r.extend_from_slice(format!("Content-Length: {}\r\n", body.len()).as_bytes());
    r.extend_from_slice(b"\r\n");
    r.extend_from_slice(body);
    r
}

/// Drive one exchange against a scripted response; give back the
/// request bytes that went out.
fn drive(http: &mut SendReceiveFlow, response: &[u8]) -> Vec<u8> {
    let mut sent = Vec::new();
    loop {
        match http.next() {
            Some(Io::Write) => {
                sent = http.take_request_bytes();
            }
            Some(Io::Read) => {
                http.enqueue_response_bytes(response);
            }
            None => break,
        }
    }
    sent
}

const LISTING: &str = r#"<multistatus xmlns="DAV:" xmlns:C="urn:ietf:params:xml:ns:carddav">
  <response>
    <href>/home/personal/</href>
    <propstat>
      <prop>
        <resourcetype><collection/><C:addressbook/></resourcetype>
        <displayname>Personal</displayname>
      </prop>
      <status>HTTP/1.1 200 OK</status>
    </propstat>
  </response>
  <response>
    <href>/home/trash/</href>
    <propstat>
      <prop><resourcetype><collection/></resourcetype></prop>
      <status>HTTP/1.1 200 OK</status>
    </propstat>
  </response>
</multistatus>"#;

#[test]
fn list_addressbooks_yields_only_marked_entries() {
    let mut flow = ListAddressbooksFlow::new(&config());
    let sent = drive(&mut flow.http, &respond("HTTP/1.1 207 Multi-Status", LISTING.as_bytes()));
    assert!(sent.starts_with(b"PROPFIND /home HTTP/1.1\r\n"));
    let sent_text = String::from_utf8(sent).unwrap();
    assert!(sent_text.contains("Depth: 1\r\n"));
    let books = flow.output().unwrap().unwrap();
    assert_eq!(books.len(), 1);
    assert_eq!(books[0].id, b"personal".to_vec());
    assert_eq!(books[0].display_name, Some(b"Personal".to_vec()));
}

#[test]
fn list_addressbooks_rejects_error_statuses() {
    let mut flow = ListAddressbooksFlow::new(&config());
    drive(&mut flow.http, &respond("HTTP/1.1 403 Forbidden", b""));
    match flow.output() {
        Some(Err(ProtocolError::UnexpectedStatus(403))) => {}
        _ => panic!("expected the status to be surfaced"),
    }
}

#[test]
fn list_addressbooks_rejects_malformed_bodies() {
    let mut flow = ListAddressbooksFlow::new(&config());
    drive(&mut flow.http, &respond("HTTP/1.1 207 Multi-Status", b"<broken"));
    match flow.output() {
        Some(Err(ProtocolError::MalformedXml)) => {}
        _ => panic!("expected a parse error"),
    }
}

#[test]
fn create_addressbook_sends_mkcol_under_a_fresh_id() {
    let book = Addressbook::new();
    assert_eq!(book.id.len(), 36);
    let second = Addressbook::new();
    assert_ne!(book.id, second.id);
    let mut book = book;
    book.display_name = Some(b"Team".to_vec());
    let mut flow = CreateAddressbookFlow::new(&config(), &book);
    let sent = drive(&mut flow.http, &respond("HTTP/1.1 201 Created", b""));
    let sent_text = String::from_utf8(sent).unwrap();
    let expected_line = format!("MKCOL /home/{} HTTP/1.1\r\n", String::from_utf8(book.id.clone()).unwrap());
    assert!(sent_text.starts_with(&expected_line));
    assert!(sent_text.contains("<displayname>Team</displayname>"));
    assert!(sent_text.contains("<C:addressbook />"));
    assert!(flow.output().unwrap().is_ok());
}

#[test]
fn update_addressbook_sends_proppatch() {
    let mut book = Addressbook::new();
    book.description = Some(b"notes".to_vec());
    let mut flow = UpdateAddressbookFlow::new(&config(), &book);
    let sent = drive(&mut flow.http, &respond("HTTP/1.1 207 Multi-Status", b""));
    let sent_text = String::from_utf8(sent).unwrap();
    assert!(sent_text.starts_with("PROPPATCH /home/"));
    assert!(sent_text.contains("<propertyupdate"));
    assert!(sent_text.contains("<C:addressbook-description>notes</C:addressbook-description>"));
    assert!(flow.output().unwrap().is_ok());
}

#[test]
fn delete_addressbook_tolerates_not_found() {
    let mut flow = DeleteAddressbookFlow::new(&config(), b"personal");
    let sent = drive(&mut flow.http, &respond("HTTP/1.1 404 Not Found", b""));
    assert!(sent.starts_with(b"DELETE /home/personal HTTP/1.1\r\n"));
    assert_eq!(flow.output(), Some(Ok(false)));

    let mut flow = DeleteAddressbookFlow::new(&config(), b"personal");
    drive(&mut flow.http, &respond("HTTP/1.1 204 No Content", b""));
    assert_eq!(flow.output(), Some(Ok(true)));

    let mut flow = DeleteAddressbookFlow::new(&config(), b"personal");
    drive(&mut flow.http, &respond("HTTP/1.1 500 Oops", b""));
    match flow.output() {
        Some(Err(ProtocolError::UnexpectedStatus(500))) => {}
        _ => panic!("expected the status to be surfaced"),
    }
}

#[test]
fn create_card_returns_the_same_vcard_untouched() {
    let vcard = b"BEGIN:VCARD\r\nVERSION:3.0\r\nUID:a1\r\nEND:VCARD\r\n";
    let card = Card {
        id: b"a1".to_vec(),
        addressbook_id: b"personal".to_vec(),
        content: vcard.to_vec(),
    };
    let mut flow = CreateCardFlow::new(&config(), card);
    let sent = drive(&mut flow.http, &respond("HTTP/1.1 201 Created", b""));
    let sent_text = String::from_utf8(sent).unwrap();
    assert!(sent_text.starts_with("PUT /home/personal/a1.vcf HTTP/1.1\r\n"));
    assert!(sent_text.contains("Content-Type: text/vcard; charset=utf-8\r\n"));
    assert!(sent_text.ends_with("BEGIN:VCARD\r\nVERSION:3.0\r\nUID:a1\r\nEND:VCARD\r\n"));
    let back = flow.output().unwrap().unwrap();
    assert_eq!(back.content, vcard.to_vec());
    assert_eq!(back.id, b"a1".to_vec());
}

#[test]
fn create_card_surfaces_failure_statuses() {
    let card = Card {
        id: b"a1".to_vec(),
        addressbook_id: b"personal".to_vec(),
        content: b"BEGIN:VCARD\r\nEND:VCARD\r\n".to_vec(),
    };
    let mut flow = UpdateCardFlow::new(&config(), card);
    drive(&mut flow.http, &respond("HTTP/1.1 412 Precondition Failed", b""));
    match flow.output() {
        Some(Err(ProtocolError::UnexpectedStatus(412))) => {}
        _ => panic!("expected the status to be surfaced"),
    }
}

#[test]
fn read_card_takes_the_body_as_vcard_text() {
    let vcard = b"BEGIN:VCARD\r\nUID:z9\r\nEND:VCARD\r\n";
    let mut flow = ReadCardFlow::new(&config(), b"personal", b"z9");
    let sent = drive(&mut flow.http, &respond("HTTP/1.1 200 OK", vcard));
    assert!(sent.starts_with(b"GET /home/personal/z9.vcf HTTP/1.1\r\n"));
    let card = flow.output().unwrap().unwrap();
    assert_eq!(card.id, b"z9".to_vec());
    assert_eq!(card.addressbook_id, b"personal".to_vec());
    assert_eq!(card.content, vcard.to_vec());
}

#[test]
fn list_cards_extracts_address_data() {
    let body = r#"<multistatus xmlns="DAV:" xmlns:C="urn:ietf:params:xml:ns:carddav">
      <response>
        <href>/home/personal/a1.vcf</href>
        <propstat>
          <prop><C:address-data>BEGIN:VCARD
UID:a1
END:VCARD</C:address-data></prop>
          <status>HTTP/1.1 200 OK</status>
        </propstat>
      </response>
      <response>
        <href>/home/personal/b2.vcf</href>
        <propstat>
          <prop><C:address-data>BEGIN:VCARD
UID:b2
END:VCARD</C:address-data></prop>
          <status>HTTP/1.1 200 OK</status>
        </propstat>
      </response>
    </multistatus>"#;
    let mut flow = ListCardsFlow::new(&config(), b"personal");
    let sent = drive(&mut flow.http, &respond("HTTP/1.1 207 Multi-Status", body.as_bytes()));
    assert!(sent.starts_with(b"REPORT /home/personal HTTP/1.1\r\n"));
    let cards = flow.output().unwrap().unwrap();
    assert_eq!(cards.len(), 2);
    assert_eq!(cards[0].id, b"a1".to_vec());
    assert_eq!(cards[1].id, b"b2".to_vec());
}

#[test]
fn delete_card_targets_the_vcf_path() {
    let mut flow = DeleteCardFlow::new(&config(), b"personal", b"a1");
    let sent = drive(&mut flow.http, &respond("HTTP/1.1 204 No Content", b""));
    assert!(sent.starts_with(b"DELETE /home/personal/a1.vcf HTTP/1.1\r\n"));
    assert_eq!(flow.output(), Some(Ok(true)));
}

#[test]
fn commands_turn_into_the_records_their_operations_use() {
    let create = CreateAddressbookCommand {
        name: Some(String::from("Team")),
        description: None,
        color: Some(String::from("#ff0000")),
    };
    let book = create.into_addressbook();
    assert_eq!(book.id.len(), 36);
    assert_eq!(book.display_name, Some(b"Team".to_vec()));
    assert_eq!(book.description, None);
    assert_eq!(book.color, Some(b"#ff0000".to_vec()));

    let update = UpdateAddressbookCommand {
        id: String::from("personal"),
        name: Some(String::from("Private")),
        description: Some(String::from("my contacts")),
        color: None,
    };
    let book = update.into_addressbook();
    assert_eq!(book.id, b"personal".to_vec());
    assert_eq!(book.display_name, Some(b"Private".to_vec()));
    assert_eq!(book.description, Some(b"my contacts".to_vec()));

    let delete = DeleteAddressbookCommand { id: String::from("personal"), yes: true };
    assert!(delete.skip_confirmation());

    let sub = AddressbookSubcommand::Delete(delete);
    match sub {
        AddressbookSubcommand::Delete(cmd) => assert_eq!(cmd.id, "personal"),
        _ => panic!("expected the delete subcommand"),
    }
    let sub = CardSubcommand::List(ListCardsCommand { addressbook_id: String::from("personal") });
    match sub {
        CardSubcommand::List(cmd) => assert_eq!(cmd.addressbook_id, "personal"),
        _ => panic!("expected the list subcommand"),
    }
    let del = DeleteCardCommand {
        addressbook_id: String::from("personal"),
        card_id: String::from("a1"),
    };
    assert_eq!(del.card_id, "a1");
}
