use veq::session::{Message, RawMessage, SessionPacket};
use veq::snow_types::{SnowInitiation, SnowResponse};

#[test]
fn session_packet_layout_matches_bincode_with_uuid() {
    let id: u128 = 0x0011_2233_4455_6677_8899_aabb_ccdd_eeff;
    let p = SessionPacket::new(id, vec![1, 2, 3]);
    let expected =
        bincode::serialize(&(uuid::Uuid::from_u128(id), vec![1u8, 2, 3])).unwrap();
    assert_eq!(p.encode(), expected);
    let d = SessionPacket::decode(&expected).unwrap();
    assert_eq!(d.id, id);
    assert_eq!(d.data, vec![1, 2, 3]);
}

#[test]
fn session_packet_refuses_identifier_of_wrong_length() {
    let mut bytes = bincode::serialize(&(vec![1u8; 15], vec![1u8])).unwrap();
    assert!(SessionPacket::decode(&bytes).is_none());
    bytes.clear();
    assert!(SessionPacket::decode(&bytes).is_none());
}

#[test]
fn raw_message_variants_are_numbered() {
    assert_eq!(RawMessage::HandshakePoke.encode(), vec![0, 0, 0, 0]);
    assert_eq!(
        RawMessage::HandshakeInitiation(SnowInitiation(vec![9])).encode(),
        vec![1, 0, 0, 0, 1, 0, 0, 0, 0, 0, 0, 0, 9]
    );
    assert_eq!(
        RawMessage::HandshakeResponse(SnowResponse(vec![])).encode(),
        vec![2, 0, 0, 0, 0, 0, 0, 0, 0, 0, 0, 0]
    );
    assert_eq!(
        RawMessage::Encrypted(vec![1, 2]).encode(),
        vec![3, 0, 0, 0, 2, 0, 0, 0, 0, 0, 0, 0, 1, 2]
    );
    assert!(RawMessage::decode(&[4, 0, 0, 0]).is_none());
    match RawMessage::decode(&[3, 0, 0, 0, 1, 0, 0, 0, 0, 0, 0, 0, 5, 99]) {
        Some(RawMessage::Encrypted(e)) => assert_eq!(e, vec![5]),
        _ => panic!("expected an encrypted body"),
    }
}

#[test]
fn message_variants_are_numbered() {
    assert_eq!(Message::Keepalive.encode(), vec![0, 0, 0, 0]);
    let payload = Message::Payload(vec![4, 5]).encode();
    assert_eq!(payload, vec![1, 0, 0, 0, 2, 0, 0, 0, 0, 0, 0, 0, 4, 5]);
    match Message::decode(&payload) {
        Some(Message::Payload(p)) => assert_eq!(p, vec![4, 5]),
        _ => panic!("expected a payload"),
    }
    assert!(Message::decode(&[2, 0, 0, 0]).is_none());
    assert!(Message::decode(&[1, 0, 0, 0, 5]).is_none());
}
