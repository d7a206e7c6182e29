use bytes::Bytes;
use sergio_ws::connection::{MessageWrite, ReadHalf, WriteHalf};
use sergio_ws::message_in::{Message, MessageBuffer};
use sergio_ws::message_out::MessageOut;
use sergio_ws::Role;

fn wire_of(w: MessageWrite) -> Vec<u8> {
    match w {
        MessageWrite::Single { header, payload } => [header, payload].concat(),
        MessageWrite::Fragmented { header, fragments } => {
            let mut out = header;
            for f in fragments.iter() {
                out.extend_from_slice(f);
            }
            out
        }
        MessageWrite::Nothing => vec![],
    }
}

fn read_back(reader: &mut ReadHalf, wire: &[u8]) -> Message {
    reader.buffer.extend_from_slice(wire);
    let mut buf: Option<MessageBuffer> = None;
    let (done, ctrl) = reader.read_frame_inner(&mut buf, false).unwrap().unwrap();
    assert!(done);
    assert!(ctrl.is_none());
    assert!(reader.buffer.is_empty());
    buf.unwrap().into_message().unwrap()
}

#[test]
fn client_fragmented_binary_reaches_server() {
    let client_id: u64 = 0;
    let pieces = vec![
        Bytes::from_static(b"prefix["),
        Bytes::from(client_id.to_be_bytes().to_vec()),
        Bytes::from_static(b"]suffix"),
    ];
    let mut writer = WriteHalf::after_handshake(Role::Client);
    let w = writer.write_message(MessageOut::FragmentedBinary(pieces), [0x11, 0x22, 0x33, 0x44]).unwrap();
    let wire = wire_of(w);
    let mut reader = ReadHalf::after_handshake(Role::Server);
    match read_back(&mut reader, &wire) {
        Message::Binary(b) => assert_eq!(
            b.to_vec(),
            vec![b"prefix[".to_vec(), client_id.to_be_bytes().to_vec(), b"]suffix".to_vec()].concat()
        ),
        other => panic!("unexpected {:?}", other),
    }
}

#[test]
fn server_binary_echo_reaches_client() {
    let mut writer = WriteHalf::after_handshake(Role::Server);
    let data = b"prefix[\0\0\0\0\0\0\0\0]suffix".to_vec();
    let w = writer.write_message(MessageOut::Binary(data.clone()), [1, 2, 3, 4]).unwrap();
    let mut reader = ReadHalf::after_handshake(Role::Client);
    match read_back(&mut reader, &wire_of(w)) {
        Message::Binary(b) => assert_eq!(b.to_vec(), data),
        other => panic!("unexpected {:?}", other),
    }
}

#[test]
fn text_message_roundtrip() {
    let mut writer = WriteHalf::after_handshake(Role::Client);
    let w = writer.write_message(MessageOut::Text("héllo wörld".to_string()), [9, 8, 7, 6]).unwrap();
    let mut reader = ReadHalf::after_handshake(Role::Server);
    match read_back(&mut reader, &wire_of(w)) {
        Message::Text(s) => assert_eq!(s, "héllo wörld"),
        other => panic!("unexpected {:?}", other),
    }
}

#[test]
fn large_frame_roundtrip() {
    let data: Vec<u8> = (0..70000u32).map(|i| (i % 251) as u8).collect();
    let mut writer = WriteHalf::after_handshake(Role::Client);
    let w = writer.write_message(MessageOut::Binary(data.clone()), [5, 6, 7, 8]).unwrap();
    let wire = wire_of(w);
    assert_eq!(wire[1], 0xFF);
    let mut reader = ReadHalf::after_handshake(Role::Server);
    match read_back(&mut reader, &wire) {
        Message::Binary(b) => assert_eq!(b.to_vec(), data),
        other => panic!("unexpected {:?}", other),
    }
}
