use desktop_native::frame::{
    decode_frame, encode_frame, DecodeStep, FrameError, LENGTH_PREFIX_SIZE,
    NATIVE_MESSAGING_BUFFER_SIZE,
};

fn decoded(buf: &[u8]) -> (Vec<u8>, usize) {
    match decode_frame(buf) {
        DecodeStep::Frame { payload, consumed } => (payload, consumed),
        other => panic!("no frame: {:?}", other),
    }
}

#[test]
fn cap_is_one_mebibyte() {
    assert_eq!(NATIVE_MESSAGING_BUFFER_SIZE, 1_048_576);
    assert_eq!(LENGTH_PREFIX_SIZE, 4);
}

#[test]
fn encode_writes_little_endian_prefix() {
    assert_eq!(encode_frame(b"ping").unwrap(), vec![4, 0, 0, 0, b'p', b'i', b'n', b'g']);
    assert_eq!(encode_frame(b"").unwrap(), vec![0, 0, 0, 0]);
    let frame = encode_frame(&vec![7u8; 0x01_02_03]).unwrap();
    assert_eq!(&frame[..4], &[0x03, 0x02, 0x01, 0x00]);
    assert_eq!(frame.len(), 4 + 0x01_02_03);
}

#[test]
fn round_trip_empty_payload() {
    let frame = encode_frame(b"").unwrap();
    assert_eq!(decoded(&frame), (vec![], 4));
}

#[test]
fn round_trip_text_payload() {
    let frame = encode_frame("pong".as_bytes()).unwrap();
    assert_eq!(decoded(&frame), (b"pong".to_vec(), 8));
}

#[test]
fn round_trip_largest_payload() {
    let payload: Vec<u8> = (0..NATIVE_MESSAGING_BUFFER_SIZE).map(|i| (i % 251) as u8).collect();
    let frame = encode_frame(&payload).unwrap();
    assert_eq!(&frame[..4], &[0x00, 0x00, 0x10, 0x00]);
    let (back, consumed) = decoded(&frame);
    assert_eq!(consumed, 4 + NATIVE_MESSAGING_BUFFER_SIZE);
    assert_eq!(back, payload);
}

#[test]
fn round_trip_every_small_length() {
    for len in 0..600usize {
        let payload: Vec<u8> = (0..len).map(|i| (i * 7 % 256) as u8).collect();
        let frame = encode_frame(&payload).unwrap();
        assert_eq!(decoded(&frame), (payload, 4 + len));
    }
}

#[test]
fn encode_refuses_payload_above_cap() {
    let payload = vec![0u8; NATIVE_MESSAGING_BUFFER_SIZE + 1];
    assert_eq!(encode_frame(&payload), Err(FrameError::TooLarge));
}

#[test]
fn decode_waits_for_whole_prefix() {
    assert!(matches!(decode_frame(&[]), DecodeStep::Incomplete));
    assert!(matches!(decode_frame(&[4, 0, 0]), DecodeStep::Incomplete));
}

#[test]
fn decode_waits_for_whole_payload() {
    assert!(matches!(decode_frame(&[4, 0, 0, 0, b'p', b'i', b'n']), DecodeStep::Incomplete));
}

#[test]
fn decode_leaves_following_bytes() {
    let mut buf = encode_frame(b"ab").unwrap();
    buf.extend_from_slice(&encode_frame(b"cde").unwrap());
    let (first, consumed) = decoded(&buf);
    assert_eq!((first, consumed), (b"ab".to_vec(), 6));
    assert_eq!(decoded(&buf[consumed..]), (b"cde".to_vec(), 7));
}

#[test]
fn decode_refuses_declared_length_above_cap() {
    // 1 048 577 = 0x00100001
    assert!(matches!(decode_frame(&[0x01, 0x00, 0x10, 0x00]), DecodeStep::Oversized));
    assert!(matches!(decode_frame(&[0xff, 0xff, 0xff, 0xff, 1, 2, 3]), DecodeStep::Oversized));
}

#[test]
fn decode_accepts_declared_length_at_cap() {
    // 1 048 576 = 0x00100000: allowed, but the payload is not there yet
    assert!(matches!(decode_frame(&[0x00, 0x00, 0x10, 0x00]), DecodeStep::Incomplete));
}
