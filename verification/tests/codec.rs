use wsproto::frame::Frame;
use wsproto::mask::{apply_mask, mask_frame};
use wsproto::{Error, OpCode};

fn frame_with_payload(payload: Vec<u8>) -> Frame {
    Frame::new(OpCode::Binary, payload)
}

fn round_trip_len(len: usize) {
    let payload: Vec<u8> = (0..len).map(|i| (i % 251) as u8).collect();
    let frame = frame_with_payload(payload.clone());
    let wire = frame.to_bytes();
    let (decoded, consumed) = Frame::from_bytes(&wire).expect("decode failed");
    assert_eq!(consumed, wire.len());
    assert_eq!(decoded.fin, true);
    assert_eq!(decoded.rsv1, false);
    assert_eq!(decoded.rsv2, false);
    assert_eq!(decoded.rsv3, false);
    assert_eq!(decoded.opcode, OpCode::Binary);
    assert_eq!(decoded.mask, None);
    assert_eq!(decoded.payload, payload);
}

#[test]
fn round_trip_payload_lengths() {
    round_trip_len(0);
    round_trip_len(1);
    round_trip_len(125);
    round_trip_len(126);
    round_trip_len(65535);
    round_trip_len(65536);
}

#[test]
fn round_trip_reserved_bits_and_opcodes() {
    for opcode in [
        OpCode::Continuation,
        OpCode::Text,
        OpCode::Binary,
        OpCode::Close,
        OpCode::Ping,
        OpCode::Pong,
    ] {
        let mut frame = Frame::new(opcode, vec![1, 2, 3]);
        frame.fin = false;
        frame.rsv1 = true;
        frame.rsv3 = true;
        let wire = frame.to_bytes();
        let (decoded, consumed) = Frame::from_bytes(&wire).expect("decode failed");
        assert_eq!(consumed, wire.len());
        assert_eq!(decoded, frame);
    }
}

#[test]
fn minimal_length_tier_selection() {
    // 0..=125: the length is the 7-bit code itself, no extension.
    let wire = frame_with_payload(vec![7; 125]).to_bytes();
    assert_eq!(wire[1], 125);
    assert_eq!(wire.len(), 2 + 125);

    // 126..=65535: code 126 plus a 2-byte big-endian length.
    let wire = frame_with_payload(vec![7; 126]).to_bytes();
    assert_eq!(&wire[1..4], &[126, 0, 126]);
    assert_eq!(wire.len(), 4 + 126);

    let wire = frame_with_payload(vec![7; 65535]).to_bytes();
    assert_eq!(&wire[1..4], &[126, 255, 255]);
    assert_eq!(wire.len(), 4 + 65535);

    // 65536 and up: code 127 plus an 8-byte big-endian length.
    let wire = frame_with_payload(vec![7; 65536]).to_bytes();
    assert_eq!(&wire[1..10], &[127, 0, 0, 0, 0, 0, 1, 0, 0]);
    assert_eq!(wire.len(), 10 + 65536);
}

#[test]
fn header_bits_on_the_wire() {
    let mut frame = Frame::new(OpCode::Text, b"hi".to_vec());
    frame.rsv2 = true;
    let wire = frame.to_bytes();
    // fin (0x80) | rsv2 (0x20) | text (1)
    assert_eq!(wire[0], 0xA1);
    assert_eq!(wire[1], 2);
    assert_eq!(&wire[2..], b"hi");
}

#[test]
fn decode_accepts_larger_tier_than_needed() {
    // 5 bytes announced through the 16-bit tier: lenient read.
    let wire = vec![0x81, 126, 0, 5, b'h', b'e', b'l', b'l', b'o'];
    let (decoded, consumed) = Frame::from_bytes(&wire).expect("decode failed");
    assert_eq!(consumed, wire.len());
    assert_eq!(decoded.opcode, OpCode::Text);
    assert_eq!(decoded.payload, b"hello".to_vec());
}

#[test]
fn decode_unmasks_and_keeps_mask() {
    let mask = [0xAA, 0xBB, 0xCC, 0xDD];
    let payload: Vec<u8> = vec![1, 2, 3, 4, 5];
    let masked: Vec<u8> = payload
        .iter()
        .enumerate()
        .map(|(i, b)| b ^ mask[i % 4])
        .collect();
    let mut wire = vec![0x82, 0x80 | 5];
    wire.extend_from_slice(&mask);
    wire.extend_from_slice(&masked);
    let (decoded, consumed) = Frame::from_bytes(&wire).expect("decode failed");
    assert_eq!(consumed, wire.len());
    assert_eq!(decoded.mask, Some(mask));
    assert_eq!(decoded.payload, payload);
}

#[test]
fn decode_rejects_invalid_opcodes() {
    for bad in [3u8, 4, 5, 6, 7, 11, 12, 13, 14, 15] {
        let wire = vec![0x80 | bad, 0];
        match Frame::from_bytes(&wire) {
            Err(Error::Protocol(m)) => assert_eq!(m, format!("Invalid OpCode: {}", bad)),
            other => panic!("expected protocol error, got {:?}", other),
        }
        match OpCode::try_from(bad) {
            Err(Error::Protocol(m)) => assert_eq!(m, format!("Invalid OpCode: {}", bad)),
            other => panic!("expected protocol error, got {:?}", other),
        }
    }
}

#[test]
fn invalid_opcode_message_names_wider_values() {
    for bad in [42u8, 100, 255] {
        match OpCode::try_from(bad) {
            Err(Error::Protocol(m)) => assert_eq!(m, format!("Invalid OpCode: {}", bad)),
            other => panic!("expected protocol error, got {:?}", other),
        }
    }
}

#[test]
fn valid_opcode_wire_values() {
    assert_eq!(OpCode::try_from(0).unwrap(), OpCode::Continuation);
    assert_eq!(OpCode::try_from(1).unwrap(), OpCode::Text);
    assert_eq!(OpCode::try_from(2).unwrap(), OpCode::Binary);
    assert_eq!(OpCode::try_from(8).unwrap(), OpCode::Close);
    assert_eq!(OpCode::try_from(9).unwrap(), OpCode::Ping);
    assert_eq!(OpCode::try_from(10).unwrap(), OpCode::Pong);
    assert_eq!(OpCode::Continuation.to_wire(), 0);
    assert_eq!(OpCode::Text.to_wire(), 1);
    assert_eq!(OpCode::Binary.to_wire(), 2);
    assert_eq!(OpCode::Close.to_wire(), 8);
    assert_eq!(OpCode::Ping.to_wire(), 9);
    assert_eq!(OpCode::Pong.to_wire(), 10);
}

#[test]
fn decode_rejects_truncated_input() {
    // A close frame announcing a 2-byte payload that is not there.
    for wire in [
        vec![],
        vec![0x88],
        vec![0x88, 2],
        vec![0x88, 2, 3],
        vec![0x81, 126, 0],
        vec![0x81, 0x80 | 1, 0xAA, 0xBB, 0xCC],
    ] {
        match Frame::from_bytes(&wire) {
            Err(Error::Io(m)) => assert_eq!(m, "unexpected end of stream"),
            other => panic!("expected io error, got {:?}", other),
        }
    }
}

#[test]
fn decode_leaves_trailing_bytes() {
    let mut wire = Frame::new(OpCode::Ping, vec![9]).to_bytes();
    let frame_len = wire.len();
    wire.extend_from_slice(&[1, 2, 3]);
    let (decoded, consumed) = Frame::from_bytes(&wire).expect("decode failed");
    assert_eq!(consumed, frame_len);
    assert_eq!(decoded.opcode, OpCode::Ping);
}

#[test]
fn close_frame_payloads() {
    let frame = Frame::close(Some(1000));
    assert_eq!(frame.opcode, OpCode::Close);
    assert_eq!(frame.payload, vec![0x03, 0xE8]);
    assert!(frame.is_close());

    let frame = Frame::close(None);
    assert_eq!(frame.payload, Vec::<u8>::new());
    assert!(frame.is_close());
    assert!(!frame.is_masked());
}

#[test]
fn new_frame_defaults() {
    let frame = Frame::new(OpCode::Text, b"abc".to_vec());
    assert!(frame.fin);
    assert!(!frame.rsv1 && !frame.rsv2 && !frame.rsv3);
    assert_eq!(frame.mask, None);
    assert!(!frame.is_close());
    assert!(!frame.is_masked());
}

#[test]
fn masking_is_an_involution() {
    let key = [0x12, 0x34, 0x56, 0x78];
    let original: Vec<u8> = (0..23).collect();
    let mut data = original.clone();
    apply_mask(&mut data, &key);
    assert_ne!(data, original);
    apply_mask(&mut data, &key);
    assert_eq!(data, original);
}

#[test]
fn mask_frame_prepends_its_mask() {
    let original: Vec<u8> = (0..13).collect();
    let mut data = original.clone();
    mask_frame(&mut data);
    assert_eq!(data.len(), original.len() + 4);
    let key = [data[0], data[1], data[2], data[3]];
    let mut rest: Vec<u8> = data[4..].to_vec();
    apply_mask(&mut rest, &key);
    assert_eq!(rest, original);
}
