use bytes::Bytes;
use sergio_ws::connection::{FrameWrite, MessageWrite, WriteHalf};
use sergio_ws::message_out::MessageOut;
use sergio_ws::{Frame, OpCode, Payload, Role, WebSocketError};

#[test]
fn write_half_defaults() {
    let w = WriteHalf::after_handshake(Role::Client);
    assert_eq!(w.role, Role::Client);
    assert!(!w.closed);
    assert!(w.auto_apply_mask);
    assert!(w.vectored);
    assert_eq!(w.writev_threshold, 1024);
    assert!(w.write_buffer.is_empty());
}

#[test]
fn server_writes_small_frame_unmasked_into_buffer() {
    let mut w = WriteHalf::after_handshake(Role::Server);
    let r = w.write_frame(Frame::text(Payload::Owned(b"Hello".to_vec())), [1, 2, 3, 4]);
    assert!(matches!(r, Ok(FrameWrite::Buffered)));
    assert_eq!(w.write_buffer, vec![0x81, 0x05, b'H', b'e', b'l', b'l', b'o']);
}

#[test]
fn client_masks_its_frames() {
    let mut w = WriteHalf::after_handshake(Role::Client);
    let key = [0x37, 0xfa, 0x21, 0x3d];
    let r = w.write_frame(Frame::text(Payload::Owned(b"Hello".to_vec())), key);
    assert!(matches!(r, Ok(FrameWrite::Buffered)));
    assert_eq!(
        w.write_buffer,
        vec![0x81, 0x85, 0x37, 0xfa, 0x21, 0x3d, 0x7f, 0x9f, 0x4d, 0x51, 0x58]
    );
}

#[test]
fn client_without_auto_mask_sends_plain() {
    let mut w = WriteHalf::after_handshake(Role::Client);
    w.auto_apply_mask = false;
    w.write_frame(Frame::binary(Payload::Owned(vec![1, 2])), [9, 9, 9, 9]).unwrap();
    assert_eq!(w.write_buffer, vec![0x82, 0x02, 1, 2]);
}

#[test]
fn large_frame_goes_vectored() {
    let mut w = WriteHalf::after_handshake(Role::Server);
    let payload = vec![7u8; 1025];
    match w.write_frame(Frame::binary(Payload::Owned(payload.clone())), [0; 4]) {
        Ok(FrameWrite::Vectored { header, payload: p }) => {
            assert_eq!(header, vec![0x82, 0x7E, 0x04, 0x01]);
            assert_eq!(p, payload);
        }
        other => panic!("unexpected {:?}", other),
    }
    w.vectored = false;
    let r = w.write_frame(Frame::binary(Payload::Owned(payload)), [0; 4]);
    assert!(matches!(r, Ok(FrameWrite::Buffered)));
    assert_eq!(w.write_buffer.len(), 4 + 1025);
}

#[test]
fn frame_at_threshold_is_buffered() {
    let mut w = WriteHalf::after_handshake(Role::Server);
    let r = w.write_frame(Frame::binary(Payload::Owned(vec![0u8; 1024])), [0; 4]);
    assert!(matches!(r, Ok(FrameWrite::Buffered)));
}

#[test]
fn close_closes_and_later_frames_are_refused() {
    let mut w = WriteHalf::after_handshake(Role::Server);
    w.write_frame(Frame::close(1000, b""), [0; 4]).unwrap();
    assert!(w.closed);
    assert_eq!(
        w.write_frame(Frame::text(Payload::Owned(vec![])), [0; 4]).unwrap_err(),
        WebSocketError::ConnectionClosed
    );
    assert!(matches!(
        w.write_frame(Frame::close_raw(Payload::Owned(vec![])), [0; 4]),
        Ok(FrameWrite::Nothing)
    ));
    assert!(w.closed);
}

#[test]
fn message_text_single_frame() {
    let mut w = WriteHalf::after_handshake(Role::Server);
    match w.write_message(MessageOut::Text("Hi".to_string()), [0; 4]) {
        Ok(MessageWrite::Single { header, payload }) => {
            assert_eq!(header, vec![0x81, 0x02]);
            assert_eq!(payload, b"Hi".to_vec());
        }
        other => panic!("unexpected {:?}", other),
    }
}

#[test]
fn client_message_is_masked() {
    let mut w = WriteHalf::after_handshake(Role::Client);
    let key = [0x37, 0xfa, 0x21, 0x3d];
    match w.write_message(MessageOut::Binary(b"Hello".to_vec()), key) {
        Ok(MessageWrite::Single { header, payload }) => {
            assert_eq!(header, vec![0x82, 0x85, 0x37, 0xfa, 0x21, 0x3d]);
            assert_eq!(payload, vec![0x7f, 0x9f, 0x4d, 0x51, 0x58]);
        }
        other => panic!("unexpected {:?}", other),
    }
}

#[test]
fn fragmented_message_from_server() {
    let mut w = WriteHalf::after_handshake(Role::Server);
    let pieces = vec![Bytes::from_static(b"prefix["), Bytes::from_static(b"]suffix")];
    match w.write_message(MessageOut::FragmentedBinary(pieces.clone()), [0; 4]) {
        Ok(MessageWrite::Fragmented { header, fragments }) => {
            assert_eq!(header, vec![0x82, 14]);
            assert_eq!(fragments, pieces);
        }
        other => panic!("unexpected {:?}", other),
    }
}

#[test]
fn fragmented_message_from_client_is_joined_and_masked() {
    let mut w = WriteHalf::after_handshake(Role::Client);
    let pieces = vec![Bytes::from_static(b"He"), Bytes::from_static(b"llo")];
    let key = [0x37, 0xfa, 0x21, 0x3d];
    match w.write_message(MessageOut::FragmentedBinary(pieces), key) {
        Ok(MessageWrite::Fragmented { header, fragments }) => {
            assert_eq!(header, vec![0x82, 0x85, 0x37, 0xfa, 0x21, 0x3d]);
            assert_eq!(fragments.len(), 1);
            assert_eq!(fragments[0].as_ref(), &[0x7f, 0x9f, 0x4d, 0x51, 0x58]);
        }
        other => panic!("unexpected {:?}", other),
    }
}

#[test]
fn close_message_closes() {
    let mut w = WriteHalf::after_handshake(Role::Server);
    assert!(matches!(
        w.write_message(MessageOut::Close(vec![0x03, 0xE8]), [0; 4]),
        Ok(MessageWrite::Single { .. })
    ));
    assert!(w.closed);
    assert!(matches!(
        w.write_message(MessageOut::Close(vec![]), [0; 4]),
        Ok(MessageWrite::Nothing)
    ));
    assert_eq!(
        w.write_message(MessageOut::Ping(vec![]), [0; 4]).unwrap_err(),
        WebSocketError::ConnectionClosed
    );
}

#[test]
fn incomplete_vectored_send_is_an_error() {
    let mut w = WriteHalf::after_handshake(Role::Server);
    let pieces = vec![Bytes::from_static(b"prefix["), Bytes::from_static(b"]suffix")];
    let write = w.write_message(MessageOut::FragmentedBinary(pieces), [0; 4]).unwrap();
    assert_eq!(write.check_sent(16), Ok(()));
    assert_eq!(
        write.check_sent(10),
        Err(WebSocketError::IncompleteSend { sent: 10, expected: 16 })
    );
    let single = MessageWrite::Single { header: vec![0x82, 0x01], payload: vec![7] };
    assert_eq!(single.check_sent(3), Ok(()));
    assert_eq!(MessageWrite::Nothing.check_sent(0), Ok(()));
}

#[test]
fn opcode_of_messages() {
    let mut w = WriteHalf::after_handshake(Role::Server);
    for (m, b0) in [
        (MessageOut::Ping(vec![]), 0x89u8),
        (MessageOut::Pong(vec![]), 0x8A),
        (MessageOut::Binary(vec![]), 0x82),
    ] {
        match w.write_message(m, [0; 4]) {
            Ok(MessageWrite::Single { header, .. }) => assert_eq!(header, vec![b0, 0]),
            other => panic!("unexpected {:?}", other),
        }
    }
    let _ = OpCode::Text;
}
