//! Framing behavior: chunk-size independence, zero-length bodies,
//! premature closes, and header extraction from response heads.

use cardamum::flow::{HttpResponse, Io, ProtocolError, SendReceiveFlow};
use cardamum::framer::{keep_alive, location, status_code, FrameStatus, ResponseFramer};
use cardamum::request::Request;

fn response_with_body(status_line: &str, extra_headers: &[&str], body: &[u8]) -> Vec<u8> {
    let mut r = Vec::new();
    r.extend_from_slice(status_line.as_bytes());
    r.extend_from_slice(b"\r\n");
    for h in extra_headers {
        r.extend_from_slice(h.as_bytes());
        r.extend_from_slice(b"\r\n");
    }
    r.extend_from_slice(format!("Content-Length: {}\r\n", body.len()).as_bytes());
    r.extend_from_slice(b"\r\n");
    r.extend_from_slice(body);
    r
}

fn drive_with_chunks(response: &[u8], chunk_size: usize) -> Result<HttpResponse, ProtocolError> {
    let req = Request::new("GET", "/x").body("");
    let mut flow = SendReceiveFlow::new(req);
    let mut offset = 0;
    loop {
        match flow.next() {
            Some(Io::Write) => {
                let _ = flow.take_request_bytes();
            }
            Some(Io::Read) => {
                let hi = (offset + chunk_size).min(response.len());
                flow.enqueue_response_bytes(&response[offset..hi]);
                offset = hi;
            }
            None => break,
        }
    }
    flow.output().expect("flow finished without an outcome")
}

#[test]
fn one_byte_chunks_match_single_delivery() {
    let body = b"<x>hello</x>";
    let resp = response_with_body("HTTP/1.1 200 OK", &[], body);
    let whole = drive_with_chunks(&resp, resp.len()).unwrap();
    let tiny = drive_with_chunks(&resp, 1).unwrap();
    assert_eq!(whole.status, 200);
    assert_eq!(tiny.status, 200);
    assert_eq!(whole.body, body.to_vec());
    assert_eq!(tiny.body, body.to_vec());
    assert_eq!(whole.keep_alive, tiny.keep_alive);
}

#[test]
fn framer_state_is_function_of_bytes() {
    let resp = response_with_body("HTTP/1.1 207 Multi-Status", &[], b"abcdef");
    let mut a = ResponseFramer::new();
    a.feed(&resp);
    let mut b = ResponseFramer::new();
    for byte in &resp {
        b.feed(&[*byte]);
    }
    assert_eq!(a.status(), FrameStatus::Complete);
    assert_eq!(b.status(), FrameStatus::Complete);
    assert_eq!(a.body(), b.body());
}

#[test]
fn zero_content_length_completes_at_boundary() {
    let resp = response_with_body("HTTP/1.1 201 Created", &[], b"");
    let mut f = ResponseFramer::new();
    f.feed(&resp);
    assert_eq!(f.status(), FrameStatus::Complete);
    assert_eq!(f.body(), Vec::<u8>::new());
}

#[test]
fn premature_close_is_an_error_not_truncated_success() {
    let mut resp = response_with_body("HTTP/1.1 200 OK", &[], b"full body expected");
    resp.truncate(resp.len() - 5);
    let req = Request::new("GET", "/x").body("");
    let mut flow = SendReceiveFlow::new(req);
    assert_eq!(flow.next(), Some(Io::Write));
    let _ = flow.take_request_bytes();
    assert_eq!(flow.next(), Some(Io::Read));
    flow.enqueue_response_bytes(&resp);
    assert_eq!(flow.next(), Some(Io::Read));
    flow.enqueue_response_bytes(&[]);
    assert_eq!(flow.next(), None);
    match flow.output() {
        Some(Err(e)) => assert_eq!(e, ProtocolError::ConnectionClosed),
        _ => panic!("expected a connection-closed error"),
    }
}

#[test]
fn missing_content_length_is_fatal() {
    let resp = b"HTTP/1.1 200 OK\r\nServer: x\r\n\r\n".to_vec();
    let mut f = ResponseFramer::new();
    f.feed(&resp);
    assert_eq!(f.status(), FrameStatus::MissingContentLength);
}

#[test]
fn unparsable_content_length_is_fatal() {
    let resp = b"HTTP/1.1 200 OK\r\nContent-Length: seven\r\n\r\n".to_vec();
    let mut f = ResponseFramer::new();
    f.feed(&resp);
    assert_eq!(f.status(), FrameStatus::InvalidContentLength);
}

#[test]
fn status_line_and_connection_headers_are_read() {
    let resp = response_with_body(
        "HTTP/1.1 301 Moved Permanently",
        &["Location: https://other.example/x", "Connection: close"],
        b"",
    );
    let mut f = ResponseFramer::new();
    f.feed(&resp);
    assert_eq!(f.status(), FrameStatus::Complete);
    let head = f.head();
    assert_eq!(status_code(&head), Some(301));
    assert!(!keep_alive(&head));
    assert_eq!(location(&head), Some(b"https://other.example/x".to_vec()));
}

#[test]
fn keep_alive_defaults_to_true() {
    let resp = response_with_body("HTTP/1.1 200 OK", &[], b"");
    let mut f = ResponseFramer::new();
    f.feed(&resp);
    assert!(keep_alive(&f.head()));
}

#[test]
fn malformed_status_line_is_reported() {
    let resp = response_with_body("garbage", &[], b"");
    let req = Request::new("GET", "/x").body("");
    let mut flow = SendReceiveFlow::new(req);
    loop {
        match flow.next() {
            Some(Io::Write) => {
                let _ = flow.take_request_bytes();
            }
            Some(Io::Read) => flow.enqueue_response_bytes(&resp),
            None => break,
        }
    }
    match flow.output() {
        Some(Err(e)) => assert_eq!(e, ProtocolError::InvalidStatusLine),
        _ => panic!("expected an invalid status line error"),
    }
}
