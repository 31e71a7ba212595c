use agentbox::frame::{decode_frame, encode_frame, frame_header, frame_len};

#[test]
fn header_is_big_endian_length() {
    assert_eq!(frame_header(5), [0, 0, 0, 5]);
    assert_eq!(frame_header(0x0102_0304), [1, 2, 3, 4]);
    assert_eq!(frame_len([1, 2, 3, 4]), 0x0102_0304);
    assert_eq!(frame_len([0, 1, 0x86, 0xa0]), 100_000);
}

#[test]
fn frames_roundtrip() {
    let payload = br#"{"id":42,"method":"ping"}"#;
    let mut bytes = encode_frame(payload);
    assert_eq!(&bytes[..4], &(payload.len() as u32).to_be_bytes());
    bytes.extend_from_slice(b"rest");
    let (p, used) = decode_frame(&bytes).unwrap();
    assert_eq!(p, payload.to_vec());
    assert_eq!(used, payload.len() + 4);
}

#[test]
fn incomplete_frames_are_not_decoded() {
    assert!(decode_frame(&[0, 0, 0]).is_none());
    assert!(decode_frame(&[0, 0, 0, 5, 1, 2]).is_none());
    assert_eq!(decode_frame(&[0, 0, 0, 0]).unwrap(), (Vec::new(), 4));
}

#[test]
fn large_frame_roundtrip() {
    let payload = vec![b'x'; 100_000];
    let bytes = encode_frame(&payload);
    let (p, used) = decode_frame(&bytes).unwrap();
    assert_eq!(p.len(), 100_000);
    assert_eq!(used, 100_004);
}
