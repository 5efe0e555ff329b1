use wsproto::connection::{check_received, close_step, prepare_send, CloseStep};
use wsproto::frame::Frame;
use wsproto::handshake::{
    client_check_accept, client_request, collect_headers, generate_accept_value,
    generate_random_key, lookup_header, parse_header_line, server_handshake_reply,
};
use wsproto::mask::apply_mask;
use wsproto::{Error, OpCode};

const SAMPLE_KEY: &str = "dGhlIHNhbXBsZSBub25jZQ==";
const SAMPLE_ACCEPT: &str = "s3pPLMBiTxaQ9kYGzzhZRbK+xOo=";

fn lines(texts: &[&str]) -> Vec<Vec<u8>> {
    texts.iter().map(|t| t.as_bytes().to_vec()).collect()
}

#[test]
fn accept_value_reference_vector() {
    let accept = generate_accept_value(SAMPLE_KEY.as_bytes());
    assert_eq!(accept, SAMPLE_ACCEPT.as_bytes().to_vec());
}

#[test]
fn accept_value_differs_from_its_key() {
    // Base64 of a SHA-1 digest is 28 bytes, never the key handed in.
    let accept = generate_accept_value(b"abc");
    assert_eq!(accept.len(), 28);
    assert_ne!(accept, b"abc".to_vec());
}

#[test]
fn server_reply_carries_accept_value() {
    let request = lines(&[
        "GET / HTTP/1.1\r\n",
        "Host: example.com\r\n",
        "Upgrade: websocket\r\n",
        "Sec-WebSocket-Key: dGhlIHNhbXBsZSBub25jZQ==\r\n",
    ]);
    let reply = server_handshake_reply(&request).expect("handshake failed");
    let expected = format!(
        "HTTP/1.1 101 Switching Protocols\r\nUpgrade: websocket\r\nConnection: Upgrade\r\nSec-WebSocket-Accept: {}\r\n\r\n",
        SAMPLE_ACCEPT
    );
    assert_eq!(reply, expected.into_bytes());
}

#[test]
fn server_reply_is_case_insensitive_on_keys() {
    let request = lines(&["SEC-WEBSOCKET-KEY: dGhlIHNhbXBsZSBub25jZQ==\r\n"]);
    let reply = server_handshake_reply(&request).expect("handshake failed");
    let text = String::from_utf8(reply).unwrap();
    assert!(text.contains(SAMPLE_ACCEPT));
}

#[test]
fn server_reply_requires_the_key_header() {
    let request = lines(&["GET / HTTP/1.1\r\n", "Host: example.com\r\n"]);
    match server_handshake_reply(&request) {
        Err(Error::Protocol(m)) => assert_eq!(m, "Missing Sec-WebSocket-Key header"),
        other => panic!("expected protocol error, got {:?}", other),
    }
}

#[test]
fn client_request_carries_its_key() {
    let request = client_request(SAMPLE_KEY.as_bytes());
    let expected = format!(
        "GET / HTTP/1.1\r\nHost: server.example.com\r\nUpgrade: websocket\r\nConnection: Upgrade\r\nSec-WebSocket-Key: {}\r\nSec-WebSocket-Version: 13\r\n\r\n",
        SAMPLE_KEY
    );
    assert_eq!(request, expected.into_bytes());
}

#[test]
fn generated_key_is_base64_of_16_bytes() {
    let key = generate_random_key();
    assert_eq!(key.len(), 24);
    assert_eq!(key[22], b'=');
    assert_eq!(key[23], b'=');
}

#[test]
fn client_accepts_the_matching_accept_value() {
    let response = lines(&[
        "HTTP/1.1 101 Switching Protocols\r\n",
        "Sec-WebSocket-Accept: s3pPLMBiTxaQ9kYGzzhZRbK+xOo=\r\n",
    ]);
    assert!(client_check_accept(SAMPLE_KEY.as_bytes(), &response).is_ok());
}

#[test]
fn client_rejects_a_missing_accept_header() {
    let response = lines(&["HTTP/1.1 101 Switching Protocols\r\n", "Upgrade: websocket\r\n"]);
    match client_check_accept(SAMPLE_KEY.as_bytes(), &response) {
        Err(Error::Protocol(m)) => assert_eq!(m, "Missing Sec-WebSocket-Accept header"),
        other => panic!("expected protocol error, got {:?}", other),
    }
}

#[test]
fn client_rejects_a_mismatched_accept_value() {
    let response = lines(&["Sec-WebSocket-Accept: bm90IHRoZSByaWdodCB2YWx1ZQ==\r\n"]);
    match client_check_accept(SAMPLE_KEY.as_bytes(), &response) {
        Err(Error::Protocol(m)) => assert_eq!(m, "Invalid Sec-WebSocket-Accept value"),
        other => panic!("expected protocol error, got {:?}", other),
    }
}

#[test]
fn header_lines_split_trim_and_lowercase() {
    let kv = parse_header_line(b"  Content-Type :  text/plain \r\n").expect("no colon found");
    assert_eq!(kv.0, b"content-type".to_vec());
    assert_eq!(kv.1, b"text/plain".to_vec());

    assert!(parse_header_line(b"GET / HTTP/1.1\r\n").is_none());

    // The value keeps everything after the first colon, colons included.
    let kv = parse_header_line(b"Host: a:1\r\n").expect("no colon found");
    assert_eq!(kv.0, b"host".to_vec());
    assert_eq!(kv.1, b"a:1".to_vec());
}

#[test]
fn later_duplicate_headers_overwrite_earlier_ones() {
    let headers = collect_headers(&lines(&["X-Tag: one\r\n", "x-tag: two\r\n"]));
    let value = lookup_header(&headers, b"x-tag").expect("header missing");
    assert_eq!(value, b"two".to_vec());
    assert!(lookup_header(&headers, b"x-other").is_none());
}

#[test]
fn server_sends_frames_unmasked() {
    let frame = Frame::new(OpCode::Text, b"hello".to_vec());
    let wire = prepare_send(&frame, false);
    assert_eq!(wire, frame.to_bytes());
}

#[test]
fn client_masks_the_whole_serialization() {
    let frame = Frame::new(OpCode::Text, b"hello".to_vec());
    let plain = frame.to_bytes();
    let wire = prepare_send(&frame, true);
    assert_eq!(wire.len(), plain.len() + 4);
    let key = [wire[0], wire[1], wire[2], wire[3]];
    let mut rest: Vec<u8> = wire[4..].to_vec();
    apply_mask(&mut rest, &key);
    assert_eq!(rest, plain);
}

#[test]
fn server_rejects_unmasked_inbound_frames() {
    let frame = Frame::new(OpCode::Text, b"x".to_vec());
    match check_received(frame, false) {
        Err(Error::Protocol(m)) => assert_eq!(m, "Client frames must be masked"),
        other => panic!("expected protocol error, got {:?}", other),
    }
}

#[test]
fn client_rejects_masked_inbound_frames() {
    let mut frame = Frame::new(OpCode::Text, b"x".to_vec());
    frame.mask = Some([1, 2, 3, 4]);
    match check_received(frame, true) {
        Err(Error::Protocol(m)) => assert_eq!(m, "Server frames must not be masked"),
        other => panic!("expected protocol error, got {:?}", other),
    }
}

#[test]
fn conforming_inbound_frames_pass_through() {
    let mut masked = Frame::new(OpCode::Text, b"x".to_vec());
    masked.mask = Some([1, 2, 3, 4]);
    let accepted = check_received(masked, false).expect("server rejected a masked frame");
    assert_eq!(accepted.mask, Some([1, 2, 3, 4]));

    let plain = Frame::new(OpCode::Text, b"x".to_vec());
    let accepted = check_received(plain, true).expect("client rejected an unmasked frame");
    assert_eq!(accepted.mask, None);
}

fn run_close(events: Vec<Result<Frame, Error>>) -> (Result<(), Error>, usize) {
    let mut consumed = 0;
    for event in events {
        consumed += 1;
        match close_step(event) {
            CloseStep::Done => return (Ok(()), consumed),
            CloseStep::Continue => continue,
            CloseStep::Fail(e) => return (Err(e), consumed),
        }
    }
    panic!("no event ended the close sequence");
}

#[test]
fn close_consumes_exactly_the_echoed_close_frame() {
    let events = vec![Ok(Frame::close(None)), Ok(Frame::new(OpCode::Text, vec![]))];
    let (outcome, consumed) = run_close(events);
    assert!(outcome.is_ok());
    assert_eq!(consumed, 1);
}

#[test]
fn close_discards_unrelated_frames_then_finishes() {
    let events = vec![
        Ok(Frame::new(OpCode::Text, b"late".to_vec())),
        Ok(Frame::new(OpCode::Ping, vec![])),
        Ok(Frame::close(Some(1000))),
    ];
    let (outcome, consumed) = run_close(events);
    assert!(outcome.is_ok());
    assert_eq!(consumed, 3);
}

#[test]
fn close_treats_connection_closed_as_success() {
    let events = vec![
        Ok(Frame::new(OpCode::Pong, vec![])),
        Err(Error::ConnectionClosed),
    ];
    let (outcome, consumed) = run_close(events);
    assert!(outcome.is_ok());
    assert_eq!(consumed, 2);
}

#[test]
fn close_aborts_on_any_other_error() {
    let events = vec![
        Ok(Frame::new(OpCode::Text, vec![])),
        Err(Error::Io("broken pipe".to_string())),
        Err(Error::ConnectionClosed),
    ];
    let (outcome, consumed) = run_close(events);
    assert_eq!(outcome, Err(Error::Io("broken pipe".to_string())));
    assert_eq!(consumed, 2);
}
