use bytes::Bytes;
use sergio_ws::message_out::MessageOut;
use sergio_ws::OpCode;

#[test]
fn message_out_predicates() {
    assert!(MessageOut::Close(vec![]).is_close());
    assert!(!MessageOut::Ping(vec![]).is_close());
    assert!(MessageOut::FragmentedBinary(vec![]).is_fragmented());
    assert!(!MessageOut::Binary(vec![]).is_fragmented());
}

#[test]
fn single_frame_of_text() {
    let f = MessageOut::Text("é".to_string()).to_single_frame(Some([1, 2, 3, 4]));
    assert!(f.fin);
    assert_eq!(f.opcode, OpCode::Text);
    assert_eq!(f.mask, Some([1, 2, 3, 4]));
    assert_eq!(f.payload.as_slice(), &[0xC3, 0xA9]);
}

#[test]
fn fragmented_header_and_mask() {
    let m = MessageOut::FragmentedBinary(vec![Bytes::from(vec![0u8; 100]), Bytes::from(vec![1u8; 100])]);
    assert_eq!(m.build_header_for_fragmented_message(&None), vec![0x82, 0x7E, 0x00, 200]);
    assert_eq!(
        m.build_header_for_fragmented_message(&Some([1, 2, 3, 4])),
        vec![0x82, 0xFE, 0x00, 200, 1, 2, 3, 4]
    );
    match m.apply_mask(Some([1, 2, 3, 4])) {
        MessageOut::FragmentedBinary(fs) => {
            assert_eq!(fs.len(), 1);
            assert_eq!(fs[0].len(), 200);
            assert_eq!(fs[0][0], 1);
            assert_eq!(fs[0][101], 1 ^ 2);
        }
        other => panic!("unexpected {:?}", other),
    }
}

#[test]
fn apply_mask_without_key_keeps_pieces() {
    let pieces = vec![Bytes::from_static(b"a"), Bytes::from_static(b"bc")];
    match MessageOut::FragmentedBinary(pieces.clone()).apply_mask(None) {
        MessageOut::FragmentedBinary(fs) => assert_eq!(fs, pieces),
        other => panic!("unexpected {:?}", other),
    }
}

#[test]
fn apply_mask_joins_into_one_piece() {
    let m = MessageOut::FragmentedBinary(vec![Bytes::from_static(b"ab"), Bytes::from_static(b"c")]);
    match m.apply_mask(Some([1, 2, 3, 4])) {
        MessageOut::FragmentedBinary(fs) => {
            assert_eq!(fs, vec![Bytes::from(vec![0x60u8, 0x60, 0x60])]);
            let again = MessageOut::FragmentedBinary(fs).apply_mask(Some([1, 2, 3, 4]));
            match again {
                MessageOut::FragmentedBinary(gs) => assert_eq!(gs, vec![Bytes::from_static(b"abc")]),
                other => panic!("unexpected {:?}", other),
            }
        }
        other => panic!("unexpected {:?}", other),
    }
}

#[test]
fn payload_len_of_messages() {
    assert_eq!(MessageOut::Text("héllo".to_string()).payload_len(), Some(6));
    assert_eq!(MessageOut::Ping(vec![1, 2]).payload_len(), Some(2));
    let m = MessageOut::FragmentedBinary(vec![Bytes::from_static(b"ab"), Bytes::from_static(b"cde")]);
    assert_eq!(m.payload_len(), Some(5));
    assert_eq!(MessageOut::FragmentedBinary(vec![]).payload_len(), Some(0));
}
