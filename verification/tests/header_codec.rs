use sergio_ws::header::{
    decode_frame_header, decode_head_start, decode_payload_len, encode_frame_header, finish_header,
    FrameHeader, HeadStart,
};
use sergio_ws::{OpCode, WebSocketError};

const MAX: usize = 64 << 20;

#[test]
fn rfc_unmasked_text_hello() {
    let bytes = [0x81u8, 0x05, 0x48, 0x65, 0x6c, 0x6c, 0x6f];
    let (n, h) = decode_frame_header(&bytes, MAX).unwrap();
    assert_eq!(n, 2);
    assert_eq!(
        h,
        FrameHeader { fin: true, opcode: OpCode::Text, mask: None, payload_len: 5 }
    );
    assert_eq!(encode_frame_header(true, OpCode::Text, None, 5), vec![0x81, 0x05]);
}

#[test]
fn rfc_masked_text_hello() {
    let bytes = [0x81u8, 0x85, 0x37, 0xfa, 0x21, 0x3d, 0x7f, 0x9f, 0x4d, 0x51, 0x58];
    let (n, h) = decode_frame_header(&bytes, MAX).unwrap();
    assert_eq!(n, 6);
    assert_eq!(h.mask, Some([0x37, 0xfa, 0x21, 0x3d]));
    assert_eq!(h.payload_len, 5);
    let mut payload = bytes[6..].to_vec();
    sergio_ws::unmask(&mut payload, h.mask.unwrap());
    assert_eq!(payload, b"Hello".to_vec());
    assert_eq!(
        encode_frame_header(true, OpCode::Text, Some([0x37, 0xfa, 0x21, 0x3d]), 5),
        bytes[..6].to_vec()
    );
}

#[test]
fn rfc_fragmented_text() {
    let first = [0x01u8, 0x03, 0x48, 0x65, 0x6c];
    let second = [0x80u8, 0x02, 0x6c, 0x6f];
    let (_, h1) = decode_frame_header(&first, MAX).unwrap();
    let (_, h2) = decode_frame_header(&second, MAX).unwrap();
    assert!(!h1.fin);
    assert_eq!(h1.opcode, OpCode::Text);
    assert!(h2.fin);
    assert_eq!(h2.opcode, OpCode::Continuation);
    assert_eq!(h2.payload_len, 2);
}

#[test]
fn rfc_ping_and_masked_pong() {
    let ping = [0x89u8, 0x05, 0x48, 0x65, 0x6c, 0x6c, 0x6f];
    let (_, h) = decode_frame_header(&ping, MAX).unwrap();
    assert_eq!(h.opcode, OpCode::Ping);
    let pong = [0x8au8, 0x85, 0x37, 0xfa, 0x21, 0x3d, 0x7f, 0x9f, 0x4d, 0x51, 0x58];
    let (n, h) = decode_frame_header(&pong, MAX).unwrap();
    assert_eq!(n, 6);
    assert_eq!(h.opcode, OpCode::Pong);
}

#[test]
fn rfc_sixteen_bit_length() {
    let head = [0x82u8, 0x7E, 0x01, 0x00];
    let (n, h) = decode_frame_header(&head, MAX).unwrap();
    assert_eq!(n, 4);
    assert_eq!(h.payload_len, 256);
    assert_eq!(encode_frame_header(true, OpCode::Binary, None, 256), head.to_vec());
}

#[test]
fn rfc_sixty_four_bit_length() {
    let head = [0x82u8, 0x7F, 0x00, 0x00, 0x00, 0x00, 0x00, 0x01, 0x00, 0x00];
    let (n, h) = decode_frame_header(&head, MAX).unwrap();
    assert_eq!(n, 10);
    assert_eq!(h.payload_len, 65536);
    assert_eq!(encode_frame_header(true, OpCode::Binary, None, 65536), head.to_vec());
}

#[test]
fn length_boundaries_encode() {
    assert_eq!(encode_frame_header(false, OpCode::Binary, None, 125), vec![0x02, 125]);
    assert_eq!(encode_frame_header(false, OpCode::Binary, None, 126), vec![0x02, 126, 0, 126]);
    assert_eq!(
        encode_frame_header(true, OpCode::Close, Some([1, 2, 3, 4]), 65535),
        vec![0x88, 0xFE, 0xFF, 0xFF, 1, 2, 3, 4]
    );
}

#[test]
fn encode_then_decode_roundtrip() {
    let lens = [0usize, 1, 125, 126, 127, 65535, 65536, 1 << 20];
    for &len in lens.iter() {
        for &mask in [None, Some([9u8, 8, 7, 6])].iter() {
            let mut bytes = encode_frame_header(false, OpCode::Binary, mask, len);
            let n = bytes.len();
            bytes.extend_from_slice(&[0xAA, 0xBB]);
            let (m, h) = decode_frame_header(&bytes, usize::MAX).unwrap();
            assert_eq!(m, n);
            assert_eq!(h, FrameHeader { fin: false, opcode: OpCode::Binary, mask, payload_len: len });
        }
    }
}

#[test]
fn reserved_bits_are_refused() {
    assert_eq!(decode_frame_header(&[0xC1, 0x00], MAX), Err(WebSocketError::ReservedBitsNotZero));
    assert_eq!(decode_head_start(0x91, 0x00), Err(WebSocketError::ReservedBitsNotZero));
}

#[test]
fn unknown_opcode_is_refused() {
    assert_eq!(decode_frame_header(&[0x83, 0x00], MAX), Err(WebSocketError::InvalidValue));
    assert_eq!(decode_head_start(0x8B, 0x00), Err(WebSocketError::InvalidValue));
}

#[test]
fn short_input_is_eof() {
    assert_eq!(decode_frame_header(&[0x81], MAX), Err(WebSocketError::UnexpectedEOF));
    assert_eq!(decode_frame_header(&[0x82, 0x7E, 0x01], MAX), Err(WebSocketError::UnexpectedEOF));
    assert_eq!(decode_frame_header(&[0x82, 0x85, 1, 2, 3], MAX), Err(WebSocketError::UnexpectedEOF));
}

#[test]
fn fragmented_control_frame_is_refused() {
    assert_eq!(decode_frame_header(&[0x09, 0x00], MAX), Err(WebSocketError::ControlFrameFragmented));
    assert_eq!(decode_frame_header(&[0x08, 0x00], MAX), Err(WebSocketError::ControlFrameFragmented));
}

#[test]
fn large_control_frames_are_refused() {
    for b0 in [0x88u8, 0x89, 0x8A] {
        assert_eq!(
            decode_frame_header(&[b0, 0x7E, 0x00, 0x7E], MAX),
            Err(WebSocketError::ControlFrameTooLarge)
        );
        assert_eq!(decode_frame_header(&[b0, 0x7D], MAX).unwrap().1.payload_len, 125);
    }
}

#[test]
fn frame_larger_than_maximum_is_refused() {
    assert_eq!(decode_frame_header(&[0x82, 0x0B], 10), Err(WebSocketError::FrameTooLarge));
    assert_eq!(decode_frame_header(&[0x82, 0x0A], 10).unwrap().1.payload_len, 10);
    assert_eq!(decode_frame_header(&[0x82, 0x05], 5).unwrap().1.payload_len, 5);
}

#[test]
fn staged_decoding_matches_whole() {
    let start = decode_head_start(0x82, 0xFE).unwrap();
    assert_eq!(
        start,
        HeadStart { fin: true, opcode: OpCode::Binary, masked: true, length_code: 126 }
    );
    assert_eq!(start.extended_len(), 2);
    let len = decode_payload_len(&start, &[0x12, 0x34]).unwrap();
    assert_eq!(len, 0x1234);
    let h = finish_header(&start, len, Some([1, 2, 3, 4]), MAX).unwrap();
    let whole = decode_frame_header(&[0x82, 0xFE, 0x12, 0x34, 1, 2, 3, 4], MAX).unwrap();
    assert_eq!(whole, (8, h));
}

#[test]
fn non_minimal_length_is_accepted() {
    let (n, h) = decode_frame_header(&[0x82, 0x7E, 0x00, 0x05], MAX).unwrap();
    assert_eq!(n, 4);
    assert_eq!(h.payload_len, 5);
    assert_eq!(encode_frame_header(true, OpCode::Binary, None, 5), vec![0x82, 0x05]);
}

#[test]
fn opcode_values() {
    for (v, op) in [
        (0u8, OpCode::Continuation),
        (1, OpCode::Text),
        (2, OpCode::Binary),
        (8, OpCode::Close),
        (9, OpCode::Ping),
        (10, OpCode::Pong),
    ] {
        assert_eq!(OpCode::try_from_u8(v), Ok(op));
        assert_eq!(op.as_u8(), v);
    }
    assert_eq!(OpCode::try_from_u8(3), Err(WebSocketError::InvalidValue));
    assert!(sergio_ws::frame::is_control(OpCode::Pong));
    assert!(!sergio_ws::frame::is_control(OpCode::Continuation));
}
