use veq::holepunch::punching::{Holepunching, Initiating, Waiting};
use veq::proto::data::Message;
use veq::proto::handshake::{SnowInitiator, SnowResponder};
use veq::proto::session::{Session, SessionInitiator};
use veq::snow_types::SnowKeypair;

fn get_sessions() -> (Session, Session) {
    let k1 = SnowKeypair::new().unwrap();
    let k2 = SnowKeypair::new().unwrap();
    let mut initiator = SessionInitiator::<SnowInitiator>::from_keypair(k1.clone(), &k2.public()).unwrap();
    let responder = SessionInitiator::<SnowResponder>::from_keypair(k2, &k1.public()).unwrap();

    let initiation = initiator.initiation().unwrap();
    let (session2, response) = responder.receive_initiation(initiation).unwrap();

    let session1 = initiator.receive_response(response).unwrap();
    (session1, session2)
}

#[test]
fn test_handshake() {
    get_sessions();
}

#[test]
fn test_multiple_initiations() {
    let k1 = SnowKeypair::new().unwrap();
    let k2 = SnowKeypair::new().unwrap();
    let mut initiator = SessionInitiator::<SnowInitiator>::from_keypair(k1.clone(), &k2.public()).unwrap();
    let responder = SessionInitiator::<SnowResponder>::from_keypair(k2, &k1.public()).unwrap();

    let first = initiator.initiation().unwrap();
    initiator.initiation().unwrap();
    let initiation = initiator.initiation().unwrap();
    assert_eq!(first.0, initiation.0);
    let (_session2, response) = responder.receive_initiation(initiation).unwrap();

    let _session1 = initiator.receive_response(response).unwrap();
}

#[test]
fn session_test_send_recv() {
    let (mut session1, mut session2) = get_sessions();
    let message = Message::new(vec![1, 2, 3, 4]);

    session2.handle_incoming(&session1.send(message.clone()).unwrap()).unwrap();
    let received = session2.try_recv().unwrap();
    assert_eq!(message, received);
}

#[test]
fn session_test_bidirectional() {
    let (mut session1, mut session2) = get_sessions();
    let message1 = Message::new(vec![1, 2, 3, 4]);
    let message2 = Message::new(vec![5, 6, 7, 8]);

    session2.handle_incoming(&session1.send(message1.clone()).unwrap()).unwrap();
    session1.handle_incoming(&session2.send(message2.clone()).unwrap()).unwrap();

    assert_eq!(message1, session2.try_recv().unwrap());
    assert_eq!(message2, session1.try_recv().unwrap());
}

#[test]
fn test_recv_in_order() {
    let (mut session1, mut session2) = get_sessions();
    let message1 = Message::new((1..10).collect());
    let message2 = Message::new((10..20).collect());
    let message3 = Message::new((20..30).collect());

    session2.handle_incoming(&session1.send(message1.clone()).unwrap()).unwrap();
    session2.handle_incoming(&session1.send(message2.clone()).unwrap()).unwrap();
    session2.handle_incoming(&session1.send(message3.clone()).unwrap()).unwrap();

    assert_eq!(message1, session2.try_recv().unwrap());
    assert_eq!(message2, session2.try_recv().unwrap());
    assert_eq!(message3, session2.try_recv().unwrap());
}

#[test]
#[should_panic]
fn test_replay() {
    let (mut session1, mut session2) = get_sessions();
    let message = Message::new(vec![1, 2, 3, 4]);

    let encrypted = session1.send(message.clone()).unwrap();
    session2.handle_incoming(&encrypted).unwrap();
    session2.handle_incoming(&encrypted).unwrap();
    let received = session2.try_recv().unwrap();
    assert_eq!(message, received);
}

#[test]
fn replayed_message_is_refused_and_not_queued() {
    let (mut session1, mut session2) = get_sessions();
    let encrypted = session1.send(Message::new(vec![9])).unwrap();
    session2.handle_incoming(&encrypted).unwrap();
    assert!(session2.handle_incoming(&encrypted).is_err());
    assert_eq!(session2.try_recv(), Some(Message::new(vec![9])));
    assert_eq!(session2.try_recv(), None);
}

#[test]
fn punching_test_punch() {
    let k1 = SnowKeypair::new().unwrap();
    let k2 = SnowKeypair::new().unwrap();
    let initiator = Holepunching::<Initiating>::new(k1.clone(), &k2.public()).unwrap();
    let responder = Holepunching::<Waiting>::new(k2, &k1.public()).unwrap();

    let initiation = initiator.initiation();
    let responder = responder.receive_initiation(initiation).unwrap();

    let response = responder.response();
    let punched1 = initiator.receive_response(response).unwrap();

    let keepalive = punched1.keepalive();
    let punched2 = responder.receive_keepalive(keepalive);

    let mut session1 = punched1.into_session();
    let mut session2 = punched2.into_session();

    let message = Message::new((1..10).collect());
    let encrypted = session1.send(message.clone()).unwrap();
    session2.handle_incoming(&encrypted).unwrap();
    let received = session2.try_recv().unwrap();

    assert_eq!(message, received);
}

#[test]
fn overlong_keys_are_refused_by_the_handshake_roles() {
    let k1 = SnowKeypair::new().unwrap();
    let mut long = k1.public();
    long.0 = vec![1u8; 57];
    assert!(SnowInitiator::new(&k1, &long).is_err());
    assert!(SnowResponder::new(&k1, &long).is_err());
}
