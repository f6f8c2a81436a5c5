//! Discovery: configuration precedence, URI handling, the well-known
//! bootstrap, and redirect-following with connection-reuse decisions.

use cardamum::backend::{select_backend, BackendKind, MissingCarddavFeature, MissingVdirFeature,
    VdirClient, VdirConfig};
use cardamum::discovery::{
    apply_redirect, discovery_plan, must_reconnect, parse_uri_ref, well_known_origin,
    DiscoveryConfig, DiscoveryIo, DiscoverySource, DiscoveryTarget, HrefDiscoveryFlow, Uri,
    UriRef, WellKnownFlow,
};
use cardamum::flow::{Io, ProtocolError};
use cardamum::ops::Auth;

fn respond(status_line: &str, extra_headers: &[&str], body: &[u8]) -> Vec<u8> {
    let mut r = Vec::new();
    r.extend_from_slice(status_line.as_bytes());
    r.extend_from_slice(b"\r\n");
    for h in extra_headers {
        r.extend_from_slice(h.as_bytes());
        r.extend_from_slice(b"\r\n");
    }
    r.extend_from_slice(format!("Content-Length: {}\r\n", body.len()).as_bytes());
    r.extend_from_slice(b"\r\n");
    r.extend_from_slice(body);
    r
}

#[test]
fn configuration_precedence_is_home_then_server_then_discover() {
    assert_eq!(discovery_plan(true, true, true), Ok(DiscoverySource::HomeUri));
    assert_eq!(discovery_plan(false, true, true), Ok(DiscoverySource::ServerUri));
    assert_eq!(discovery_plan(false, false, true), Ok(DiscoverySource::WellKnown));
    assert_eq!(discovery_plan(false, false, false), Err(ProtocolError::MissingConfig));
}

#[test]
fn uri_references_split_into_their_parts() {
    match parse_uri_ref(b"https://dav.example:8443/users/me") {
        UriRef::Absolute(u) => {
            assert_eq!(u.scheme, b"https".to_vec());
            assert_eq!(u.authority, b"dav.example:8443".to_vec());
            assert_eq!(u.path, b"/users/me".to_vec());
        }
        _ => panic!("expected an absolute target"),
    }
    match parse_uri_ref(b"https://dav.example") {
        UriRef::Absolute(u) => {
            assert_eq!(u.path, b"/".to_vec());
        }
        _ => panic!("expected an absolute target"),
    }
    match parse_uri_ref(b"/only/a/path") {
        UriRef::PathOnly(p) => assert_eq!(p, b"/only/a/path".to_vec()),
        _ => panic!("expected a path hint"),
    }
}

#[test]
fn redirects_rewrite_or_replace_the_uri() {
    let cur = Uri {
        scheme: b"https".to_vec(),
        authority: b"a.example".to_vec(),
        path: b"/old".to_vec(),
    };
    let (same_path, same) = apply_redirect(&cur, b"/new");
    assert!(same);
    assert_eq!(same_path.authority, b"a.example".to_vec());
    assert_eq!(same_path.path, b"/new".to_vec());

    let (moved, same) = apply_redirect(&cur, b"https://b.example/root");
    assert!(!same);
    assert_eq!(moved.authority, b"b.example".to_vec());

    let (kept, same) = apply_redirect(&cur, b"https://a.example/other");
    assert!(same);
    assert_eq!(kept.path, b"/other".to_vec());
}

#[test]
fn reconnect_when_closed_or_off_origin() {
    assert!(!must_reconnect(true, true));
    assert!(must_reconnect(true, false));
    assert!(must_reconnect(false, true));
    assert!(must_reconnect(false, false));
}

#[test]
fn well_known_lookup_concludes_with_the_redirect_target() {
    let config = DiscoveryConfig {
        host: String::from("contacts.example"),
        port: Some(8443),
        scheme: None,
        method: None,
    };
    let mut flow = WellKnownFlow::new(&config, &Auth::Plain);
    let mut sent = Vec::new();
    loop {
        match flow.next() {
            Some(Io::Write) => sent = flow.take_request_bytes(),
            Some(Io::Read) => flow.enqueue_response_bytes(&respond(
                "HTTP/1.1 301 Moved Permanently",
                &["Location: https://other.example/dav/", "Connection: close"],
                b"",
            )),
            None => break,
        }
    }
    assert!(sent.starts_with(b"GET /.well-known/carddav HTTP/1.1\r\n"));
    let outcome = flow.output().unwrap().unwrap();
    assert_eq!(outcome.uri.authority, b"other.example".to_vec());
    assert_eq!(outcome.uri.path, b"/dav/".to_vec());
    // different authority and an explicit close: the next step needs a
    // fresh connection
    assert!(!outcome.keep_alive);
}

#[test]
fn well_known_refuses_non_redirects() {
    let config = DiscoveryConfig {
        host: String::from("contacts.example"),
        port: None,
        scheme: Some(String::from("http")),
        method: Some(String::from("PROPFIND")),
    };
    let mut flow = WellKnownFlow::new(&config, &Auth::Plain);
    let mut sent = Vec::new();
    loop {
        match flow.next() {
            Some(Io::Write) => sent = flow.take_request_bytes(),
            Some(Io::Read) => {
                flow.enqueue_response_bytes(&respond("HTTP/1.1 200 OK", &[], b""))
            }
            None => break,
        }
    }
    assert!(sent.starts_with(b"PROPFIND /.well-known/carddav HTTP/1.1\r\n"));
    match flow.output() {
        Some(Err(ProtocolError::NotRedirected(200))) => {}
        _ => panic!("expected the bootstrap to demand a redirect"),
    }
}

const PRINCIPAL_BODY: &str = r#"<multistatus xmlns="DAV:">
  <response>
    <href>/</href>
    <propstat>
      <prop><current-user-principal><href>/principals/users/me/</href></current-user-principal></prop>
      <status>HTTP/1.1 200 OK</status>
    </propstat>
  </response>
</multistatus>"#;

#[test]
fn discovery_redirect_to_another_authority_reconnects_and_lands_there() {
    let start = Uri {
        scheme: b"https".to_vec(),
        authority: b"a.example".to_vec(),
        path: b"/".to_vec(),
    };
    let mut flow = HrefDiscoveryFlow::new(
        DiscoveryTarget::CurrentUserPrincipal,
        start,
        Auth::Plain,
    );
    // first exchange: redirected elsewhere, connection not reusable
    let mut sent = Vec::new();
    let reset_uri;
    loop {
        match flow.next() {
            Some(DiscoveryIo::Io(Io::Write)) => sent = flow.take_request_bytes(),
            Some(DiscoveryIo::Io(Io::Read)) => flow.enqueue_response_bytes(&respond(
                "HTTP/1.1 302 Found",
                &["Location: https://b.example/dav/", "Connection: close"],
                b"",
            )),
            Some(DiscoveryIo::Reset(u)) => {
                reset_uri = u;
                break;
            }
            None => panic!("lookup ended before the redirect was followed"),
        }
    }
    assert!(sent.starts_with(b"PROPFIND / HTTP/1.1\r\n"));
    assert_eq!(reset_uri.authority, b"b.example".to_vec());
    assert_eq!(reset_uri.path, b"/dav/".to_vec());
    // the driver reconnects, then the lookup proceeds against the new URI
    let mut sent = Vec::new();
    loop {
        match flow.next() {
            Some(DiscoveryIo::Io(Io::Write)) => sent = flow.take_request_bytes(),
            Some(DiscoveryIo::Io(Io::Read)) => flow.enqueue_response_bytes(&respond(
                "HTTP/1.1 207 Multi-Status",
                &[],
                PRINCIPAL_BODY.as_bytes(),
            )),
            Some(DiscoveryIo::Reset(_)) => panic!("no further redirect was sent"),
            None => break,
        }
    }
    assert!(sent.starts_with(b"PROPFIND /dav/ HTTP/1.1\r\n"));
    let outcome = flow.output().unwrap().unwrap();
    assert_eq!(outcome.href, Some(b"/principals/users/me/".to_vec()));
    assert!(outcome.keep_alive);
}

#[test]
fn same_origin_redirect_reuses_the_connection() {
    let start = Uri {
        scheme: b"https".to_vec(),
        authority: b"a.example".to_vec(),
        path: b"/".to_vec(),
    };
    let mut flow = HrefDiscoveryFlow::new(
        DiscoveryTarget::AddressbookHomeSet,
        start,
        Auth::Plain,
    );
    let body = r#"<multistatus xmlns="DAV:" xmlns:C="urn:ietf:params:xml:ns:carddav">
      <response>
        <href>/principals/users/me/</href>
        <propstat>
          <prop><C:addressbook-home-set><href>/home/</href></C:addressbook-home-set></prop>
          <status>HTTP/1.1 200 OK</status>
        </propstat>
      </response>
    </multistatus>"#;
    let mut redirected = false;
    loop {
        match flow.next() {
            Some(DiscoveryIo::Io(Io::Write)) => {
                let _ = flow.take_request_bytes();
            }
            Some(DiscoveryIo::Io(Io::Read)) => {
                if !redirected {
                    redirected = true;
                    flow.enqueue_response_bytes(&respond(
                        "HTTP/1.1 302 Found",
                        &["Location: /principals/users/me/"],
                        b"",
                    ));
                } else {
                    flow.enqueue_response_bytes(&respond(
                        "HTTP/1.1 207 Multi-Status",
                        &[],
                        body.as_bytes(),
                    ));
                }
            }
            Some(DiscoveryIo::Reset(_)) => panic!("same-origin keep-alive must not reconnect"),
            None => break,
        }
    }
    let outcome = flow.output().unwrap().unwrap();
    assert_eq!(outcome.href, Some(b"/home/".to_vec()));
}

#[test]
fn redirect_without_location_is_an_error() {
    let start = Uri {
        scheme: b"https".to_vec(),
        authority: b"a.example".to_vec(),
        path: b"/".to_vec(),
    };
    let mut flow = HrefDiscoveryFlow::new(
        DiscoveryTarget::CurrentUserPrincipal,
        start,
        Auth::Plain,
    );
    loop {
        match flow.next() {
            Some(DiscoveryIo::Io(Io::Write)) => {
                let _ = flow.take_request_bytes();
            }
            Some(DiscoveryIo::Io(Io::Read)) => {
                flow.enqueue_response_bytes(&respond("HTTP/1.1 302 Found", &[], b""))
            }
            Some(DiscoveryIo::Reset(_)) => panic!("nowhere to reconnect to"),
            None => break,
        }
    }
    match flow.output() {
        Some(Err(ProtocolError::MissingLocation)) => {}
        _ => panic!("expected the missing location to be reported"),
    }
}

#[test]
fn well_known_origin_carries_port_and_scheme_defaults() {
    let config = DiscoveryConfig {
        host: String::from("dav.example"),
        port: Some(8443),
        scheme: None,
        method: None,
    };
    let origin = well_known_origin(&config);
    assert_eq!(origin.scheme, b"https".to_vec());
    assert_eq!(origin.authority, b"dav.example:8443".to_vec());
    assert_eq!(origin.path, b"/.well-known/carddav".to_vec());
}

#[test]
fn backend_selection_prefers_carddav_and_refuses_nothing() {
    assert_eq!(select_backend(true, true), Ok(BackendKind::CardDav));
    assert_eq!(select_backend(false, true), Ok(BackendKind::Vdir));
    assert_eq!(select_backend(false, false), Err(ProtocolError::UnsupportedBackend));
    assert_eq!(BackendKind::CardDav.label(), "CardDAV");
    assert_eq!(BackendKind::Vdir.label(), "Vdir");
    assert_eq!(MissingCarddavFeature.message(), "missing `carddav` cargo feature");
    assert_eq!(MissingVdirFeature.message(), "missing `vdir` cargo feature");
}

#[test]
fn vdir_client_keeps_its_configuration() {
    let client = VdirClient::new(VdirConfig { home_dir: String::from("/tmp/contacts") });
    assert_eq!(client.config.home_dir, "/tmp/contacts");
}
