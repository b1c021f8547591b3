use veq::ip_discovery::{discovered_addresses, local_ips, local_ips_v4, local_ips_v6, IpAddress};
use veq::proto::data::{EncryptedMessage, Message};
use veq::proto::handshake::HandshakeResponse;
use veq::proto::structs::CongestionReport;
use veq::veq::{PeerAddr, VeqError};

#[test]
fn test_ifs() {
    let port = 40123;
    let candidates = vec![
        PeerAddr::V4 { ip: 0, port },
        PeerAddr::V4 { ip: 0x7f00_0001, port },
        PeerAddr::V4 { ip: 0x7f00_0001, port },
    ];
    let ips = discovered_addresses(&candidates);
    assert!(!ips.contains(&PeerAddr::V4 { ip: 0, port }));
    assert!(ips.contains(&PeerAddr::V4 { ip: 0x7f00_0001, port }));
    assert_eq!(ips.len(), 1);
}

#[test]
fn interface_addresses_by_family() {
    let ifs = vec![IpAddress::V4(0x7f00_0001), IpAddress::V6(1), IpAddress::V4(0x0a00_0001)];
    assert_eq!(
        local_ips_v4(&ifs, 9),
        vec![PeerAddr::V4 { ip: 0x7f00_0001, port: 9 }, PeerAddr::V4 { ip: 0x0a00_0001, port: 9 }]
    );
    assert_eq!(
        local_ips_v6(&ifs, 9),
        vec![PeerAddr::V6 { ip: 1, port: 9, flowinfo: 0, scope_id: 0 }]
    );
    assert_eq!(local_ips(&ifs, 9).len(), 3);
}

#[test]
fn unspecified_v6_is_dropped_and_port_replaced() {
    let a = PeerAddr::V6 { ip: 0, port: 1, flowinfo: 0, scope_id: 0 };
    assert!(a.is_unspecified());
    let b = PeerAddr::V6 { ip: 5, port: 1, flowinfo: 2, scope_id: 3 };
    assert_eq!(b.with_port(7), PeerAddr::V6 { ip: 5, port: 7, flowinfo: 2, scope_id: 3 });
    assert!(discovered_addresses(&vec![a, b]) == vec![b]);
}

#[test]
fn congestion_report_ratio() {
    let r = CongestionReport::new(10, 30, 15);
    assert_eq!(r.ratio(), (15, 20));
}

#[test]
fn proto_message_and_response_bytes() {
    assert_eq!(Message::new(vec![1, 2]), Message(vec![1, 2]));
    assert_eq!(HandshakeResponse(vec![3, 4]).to_vec(), vec![3, 4]);
}

#[test]
fn veq_error_message() {
    assert_eq!(VeqError::Disconnected.message(), "Session disconnected");
}

/// Two transports of a completed Noise KK handshake, built with snow directly.
fn transport_pair() -> (snow::TransportState, snow::TransportState) {
    let params: snow::params::NoiseParams = veq::snow_types::NOISE_PARAMS.parse().unwrap();
    let k1 = snow::Builder::new(params.clone()).generate_keypair().unwrap();
    let k2 = snow::Builder::new(params.clone()).generate_keypair().unwrap();
    let mut i = snow::Builder::new(params.clone())
        .local_private_key(&k1.private)
        .remote_public_key(&k2.public)
        .build_initiator()
        .unwrap();
    let mut r = snow::Builder::new(params)
        .local_private_key(&k2.private)
        .remote_public_key(&k1.public)
        .build_responder()
        .unwrap();
    let mut buf = [0u8; 1024];
    let mut out = [0u8; 1024];
    let n = i.write_message(&[], &mut buf).unwrap();
    r.read_message(&buf[..n], &mut out).unwrap();
    let n = r.write_message(&[], &mut buf).unwrap();
    i.read_message(&buf[..n], &mut out).unwrap();
    (i.into_transport_mode().unwrap(), r.into_transport_mode().unwrap())
}

#[test]
fn encrypted_message_round_trip() {
    let (mut a, mut b) = transport_pair();
    let m = Message::new(vec![1, 2, 3, 4]);
    let e = EncryptedMessage::encrypt(&mut a, m.clone()).unwrap();
    assert_eq!(e.0.len(), 4 + 16);
    assert_ne!(&e.0[..4], &[1, 2, 3, 4]);
    assert_eq!(e.decrypt(&mut b).unwrap(), m);
}

#[test]
fn encrypted_message_too_large_or_too_short_is_refused() {
    let (mut a, mut b) = transport_pair();
    assert!(EncryptedMessage::encrypt(&mut a, Message::new(vec![0; 65535 - 15])).is_err());
    assert!(EncryptedMessage(vec![1, 2, 3]).decrypt(&mut b).is_err());
}
