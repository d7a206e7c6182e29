use sergio_ws::{unmask, Frame, OpCode, Payload};

#[test]
fn mask_then_unmask_gives_back_payload() {
    let original: Vec<u8> = (0u8..=200).collect();
    let mut data = original.clone();
    let key = [0xDE, 0xAD, 0xBE, 0xEF];
    unmask(&mut data, key);
    assert_ne!(data, original);
    assert_eq!(data[0], 0xDE);
    assert_eq!(data[5], 5 ^ 0xAD);
    unmask(&mut data, key);
    assert_eq!(data, original);
}

#[test]
fn frame_mask_uses_fresh_key_when_none() {
    let mut f = Frame::binary(Payload::Owned(vec![0, 0, 0, 0, 0]));
    f.mask([1, 2, 3, 4]);
    assert_eq!(f.mask, Some([1, 2, 3, 4]));
    assert_eq!(f.payload.as_slice(), &[1, 2, 3, 4, 1]);
}

#[test]
fn frame_mask_keeps_own_key() {
    let mut f = Frame::new(true, OpCode::Text, Some([9, 9, 9, 9]), Payload::Owned(vec![1, 2]));
    f.mask([1, 2, 3, 4]);
    assert_eq!(f.mask, Some([9, 9, 9, 9]));
    assert_eq!(f.payload.as_slice(), &[1 ^ 9, 2 ^ 9]);
    f.unmask();
    assert_eq!(f.payload.as_slice(), &[1, 2]);
    assert_eq!(f.mask, Some([9, 9, 9, 9]));
}

#[test]
fn unmask_without_key_is_noop() {
    let mut f = Frame::text(Payload::Owned(vec![7, 8]));
    f.unmask();
    assert_eq!(f.payload.extract_owned(), vec![7, 8]);
}

#[test]
fn close_frame_payload_is_code_then_reason() {
    let f = Frame::close(1000, b"bye");
    assert_eq!(f.opcode, OpCode::Close);
    assert!(f.fin);
    assert_eq!(f.payload.as_slice(), &[0x03, 0xE8, b'b', b'y', b'e']);
}

#[test]
fn frame_write_is_header_then_payload() {
    let f = Frame::pong(Payload::Owned(b"Hello".to_vec()));
    let mut buf = vec![1, 2, 3, 4, 5, 6, 7, 8, 9, 10, 11, 12];
    f.write(&mut buf);
    assert_eq!(buf, vec![0x8A, 0x05, b'H', b'e', b'l', b'l', b'o']);
    assert_eq!(f.fmt_head(), vec![0x8A, 0x05]);
    assert_eq!(f.payload.len(), 5);
}

#[test]
fn frame_constructors() {
    assert_eq!(Frame::ping(Payload::Owned(vec![])).opcode, OpCode::Ping);
    assert_eq!(Frame::close_raw(Payload::Owned(vec![1])).opcode, OpCode::Close);
    let f = Frame::new(false, OpCode::Continuation, None, Payload::Owned(vec![3]));
    assert!(!f.fin);
    assert_eq!(f.opcode, OpCode::Continuation);
}
