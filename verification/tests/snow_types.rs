use veq::snow_types::{
    LossyTransportState, Nonced, ReceiveResponseResult, SnowError, SnowInitiator, SnowKeypair,
    SnowResponder,
};

fn transports() -> (LossyTransportState, LossyTransportState) {
    let keypair1 = SnowKeypair::new().unwrap();
    let keypair2 = SnowKeypair::new().unwrap();

    let initiator = SnowInitiator::new(&keypair1, &keypair2.public()).unwrap();
    let responder = SnowResponder::new(&keypair2, &keypair1.public()).unwrap();

    let initiation = initiator.initiation();
    let (transport2, response) = responder.response(initiation).unwrap();
    let transport1 = initiator.receive_response(response).unwrap();
    (transport1, transport2)
}

#[test]
fn test_initiator_to_responder() {
    let (mut transport1, mut transport2) = transports();

    let data = vec![1, 2, 3, 4];
    let encrypted = transport1.write_message(&data).unwrap();
    let result = transport2.read_message(&encrypted).unwrap();
    assert_eq!(&data[..], &result[..]);

    let data = vec![5, 6, 7, 8];
    let encrypted = transport1.write_message(&data).unwrap();
    let result = transport2.read_message(&encrypted).unwrap();
    assert_eq!(&data[..], &result[..]);
}

#[test]
fn test_responder_to_initiator() {
    let (mut transport1, mut transport2) = transports();

    let data = vec![1, 2, 3, 4];
    let encrypted = transport2.write_message(&data).unwrap();
    let result = transport1.read_message(&encrypted).unwrap();
    assert_eq!(&data[..], &result[..]);

    let data = vec![5, 6, 7, 8];
    let encrypted = transport2.write_message(&data).unwrap();
    let result = transport1.read_message(&encrypted).unwrap();
    assert_eq!(&data[..], &result[..]);
}

#[test]
fn snow_types_test_bidirectional() {
    let (mut transport1, mut transport2) = transports();

    let data = vec![1, 2, 3, 4];
    let encrypted = transport1.write_message(&data).unwrap();
    let result = transport2.read_message(&encrypted).unwrap();
    assert_eq!(&data[..], &result[..]);

    let data = vec![5, 6, 7, 8];
    let encrypted = transport2.write_message(&data).unwrap();
    let result = transport1.read_message(&encrypted).unwrap();
    assert_eq!(&data[..], &result[..]);
}

#[test]
#[should_panic]
fn test_nonce_rejects() {
    let (mut transport1, mut transport2) = transports();

    let data = vec![1, 2, 3, 4];
    let encrypted = transport1.write_message(&data).unwrap();
    let result = transport2.read_message(&encrypted).unwrap();
    assert_eq!(&data[..], &result[..]);

    transport2.read_message(&encrypted).unwrap();
}

#[test]
fn replayed_message_is_refused_as_decrypt_error() {
    let (mut transport1, mut transport2) = transports();
    let encrypted = transport1.write_message(&[1, 2, 3]).unwrap();
    assert!(transport2.read_message(&encrypted).is_ok());
    assert_eq!(transport2.read_message(&encrypted), Err(SnowError::Decrypt));
}

#[test]
fn older_nonce_is_refused_after_a_newer_one() {
    let (mut transport1, mut transport2) = transports();
    let first = transport1.write_message(&[1]).unwrap();
    let second = transport1.write_message(&[2]).unwrap();
    assert_eq!(transport2.read_message(&second).unwrap(), vec![2]);
    assert_eq!(transport2.read_message(&first), Err(SnowError::Decrypt));
}

fn stateless_pair() -> (snow::StatelessTransportState, snow::StatelessTransportState) {
    let params: snow::params::NoiseParams = veq::snow_types::NOISE_PARAMS.parse().unwrap();
    let k1 = snow::Builder::new(params.clone()).generate_keypair().unwrap();
    let k2 = snow::Builder::new(params.clone()).generate_keypair().unwrap();
    let mut i = snow::Builder::new(params.clone())
        .local_private_key(&k1.private)
        .remote_public_key(&k2.public)
        .build_initiator()
        .unwrap();
    let mut r = snow::Builder::new(params)
        .local_private_key(&k2.private)
        .remote_public_key(&k1.public)
        .build_responder()
        .unwrap();
    let mut buf = [0u8; 1024];
    let mut out = [0u8; 1024];
    let n = i.write_message(&[], &mut buf).unwrap();
    r.read_message(&buf[..n], &mut out).unwrap();
    let n = r.write_message(&[], &mut buf).unwrap();
    i.read_message(&buf[..n], &mut out).unwrap();
    (
        i.into_stateless_transport_mode().unwrap(),
        r.into_stateless_transport_mode().unwrap(),
    )
}

#[test]
fn wider_window_accepts_late_message_above_its_oldest() {
    let (a, b) = stateless_pair();
    let mut sender = LossyTransportState::new(a, 3);
    let mut receiver = LossyTransportState::new(b, 3);
    let m0 = sender.write_message(&[0]).unwrap();
    let m1 = sender.write_message(&[1]).unwrap();
    let m2 = sender.write_message(&[2]).unwrap();
    assert_eq!(Nonced::decode(&m0).unwrap().0, 0);
    assert_eq!(Nonced::decode(&m2).unwrap().0, 2);
    assert_eq!(receiver.read_message(&m0).unwrap(), vec![0]);
    assert_eq!(receiver.read_message(&m2).unwrap(), vec![2]);
    // 1 arrives late but is newer than the oldest nonce remembered
    assert_eq!(receiver.read_message(&m1).unwrap(), vec![1]);
    assert_eq!(receiver.read_message(&m1), Err(SnowError::Decrypt));
    assert_eq!(receiver.read_message(&m0), Err(SnowError::Decrypt));
    // a nonce older than everything remembered is refused even if never seen
    let m3 = sender.write_message(&[3]).unwrap();
    let m4 = sender.write_message(&[4]).unwrap();
    let m5 = sender.write_message(&[5]).unwrap();
    let m6 = sender.write_message(&[6]).unwrap();
    assert!(receiver.read_message(&m4).is_ok());
    assert!(receiver.read_message(&m5).is_ok());
    assert!(receiver.read_message(&m6).is_ok());
    assert_eq!(receiver.read_message(&m3), Err(SnowError::Decrypt));
}

#[test]
fn window_of_one_forgets_older_nonces() {
    let (a, b) = stateless_pair();
    let mut sender = LossyTransportState::from_stateless(a);
    let mut receiver = LossyTransportState::from_stateless(b);
    let m0 = sender.write_message(&[0]).unwrap();
    let m1 = sender.write_message(&[1]).unwrap();
    let m2 = sender.write_message(&[2]).unwrap();
    assert!(receiver.read_message(&m0).is_ok());
    assert!(receiver.read_message(&m2).is_ok());
    assert_eq!(receiver.read_message(&m1), Err(SnowError::Decrypt));
}

#[test]
fn frame_carries_nonce_and_tagged_ciphertext() {
    let (mut transport1, _transport2) = transports();
    let payload = vec![7u8; 10];
    let frame = transport1.write_message(&payload).unwrap();
    let nonced = Nonced::decode(&frame).unwrap();
    assert_eq!(nonced.0, 0);
    assert_eq!(nonced.1.len(), payload.len() + 16);
    assert_eq!(frame, Nonced(0, nonced.1.clone()).encode());
    let expected = bincode::serialize(&(0u64, nonced.1.clone())).unwrap();
    assert_eq!(frame, expected);
}

#[test]
fn too_large_payload_is_refused() {
    let (mut transport1, _transport2) = transports();
    let payload = vec![0u8; 65535 - 15];
    assert!(transport1.write_message(&payload).is_err());
}

#[test]
fn refused_response_hands_the_initiator_back() {
    let keypair1 = SnowKeypair::new().unwrap();
    let keypair2 = SnowKeypair::new().unwrap();
    let initiator = SnowInitiator::new(&keypair1, &keypair2.public()).unwrap();
    let bogus = veq::snow_types::SnowResponse(vec![0u8; 48]);
    match initiator.receive_response(bogus) {
        ReceiveResponseResult::Refused(_) => {}
        _ => panic!("a garbage response must be refused"),
    }
}

#[test]
fn keypairs_are_32_bytes_and_public_orders_them() {
    let k = SnowKeypair::new().unwrap();
    assert_eq!(k.public().0.len(), 32);
    assert_eq!(k.private().0.len(), 32);
    let a = veq::snow_types::SnowPublicKey(vec![1, 2, 3]);
    let b = veq::snow_types::SnowPublicKey(vec![1, 2, 4]);
    let c = veq::snow_types::SnowPublicKey(vec![1, 2]);
    assert!(a.is_less_than(&b));
    assert!(!b.is_less_than(&a));
    assert!(c.is_less_than(&a));
    assert!(!a.is_less_than(&a));
}
