use veq::handler::{Handler, HandlerError};
use veq::snow_types::SnowKeypair;
use veq::transform::{ChunkedData, Chunker};
use veq::veq::{ConnectionInfo, PeerAddr};

struct Peer {
    handler: Handler,
    addr: PeerAddr,
    info: ConnectionInfo,
    chunker: Chunker<()>,
}

fn peer(last_octet: u32, port: u16) -> Peer {
    let keypair = SnowKeypair::new().unwrap();
    let addr = PeerAddr::V4 { ip: 0x7f00_0000 | last_octet, port };
    let info = ConnectionInfo { addresses: vec![addr], public_key: keypair.public() };
    Peer { handler: Handler::new(keypair), addr, info, chunker: Chunker::new((), 1000) }
}

/// Hands the datagrams addressed to `to` over to it.
fn deliver(to: &mut Peer, src: PeerAddr, packets: Vec<(PeerAddr, Vec<u8>)>) {
    for (dest, bytes) in packets {
        if dest == to.addr {
            to.handler.handle_incoming(src, &bytes).unwrap();
        }
    }
}

/// Runs the handshake of session `id` between `a` and `b`; gives their one-time ids.
fn connect(a: &mut Peer, b: &mut Peer, id: u128) -> (u128, u128) {
    let (oa, ob) = if a.info.is_initiator(&b.info) {
        (
            a.handler.initiate(id, b.info.clone()).unwrap(),
            b.handler.respond(id, a.info.clone()).unwrap(),
        )
    } else {
        (
            a.handler.respond(id, b.info.clone()).unwrap(),
            b.handler.initiate(id, a.info.clone()).unwrap(),
        )
    };
    for _ in 0..5 {
        let pa = a.handler.pending_packets(id);
        deliver(b, a.addr, pa);
        let pb = b.handler.pending_packets(id);
        deliver(a, b.addr, pb);
        if let Some(k) = a.handler.keepalive(id) {
            deliver(b, a.addr, vec![k]);
        }
        if let Some(k) = b.handler.keepalive(id) {
            deliver(a, b.addr, vec![k]);
        }
        if a.handler.remote_addr(id).is_some() && b.handler.remote_addr(id).is_some() {
            return (oa, ob);
        }
    }
    panic!("handshake did not complete");
}

fn send(from: &mut Peer, to: &mut Peer, id: u128, data: &[u8]) {
    let frames = from.chunker.send_frames(data);
    for f in frames {
        let (dest, bytes) = from.handler.send(id, &f).unwrap().unwrap();
        assert_eq!(dest, to.addr);
        to.handler.handle_incoming(from.addr, &bytes).unwrap();
    }
}

fn recv(p: &mut Peer, id: u128) -> Option<Vec<u8>> {
    loop {
        if let Some(ready) = p.chunker.next_ready_chunk() {
            return Some(ready);
        }
        match p.handler.recv_from(id) {
            Some(Some(frame)) => {
                let chunk = ChunkedData::decode(&frame).unwrap();
                assert!(p.chunker.accepts_chunk(&chunk));
                p.chunker.add_chunk(chunk);
            }
            _ => return None,
        }
    }
}

#[test]
fn test_bidirectional_small() {
    let mut p1 = peer(1, 4001);
    let mut p2 = peer(2, 4002);
    connect(&mut p1, &mut p2, 77);

    let data = vec![0, 1, 2, 3];
    send(&mut p1, &mut p2, 77, &data);
    assert_eq!(Some(data), recv(&mut p2, 77));

    let data2 = vec![5, 6, 7, 8];
    send(&mut p2, &mut p1, 77, &data2);
    assert_eq!(Some(data2), recv(&mut p1, 77));
}

#[test]
fn test_queued_small() {
    let mut p1 = peer(1, 4001);
    let mut p2 = peer(2, 4002);
    connect(&mut p1, &mut p2, 5);
    let data1 = vec![0, 1, 2, 3];
    let data2 = vec![5, 4, 3, 2];
    let data3 = vec![7, 8, 9, 10];
    send(&mut p1, &mut p2, 5, &data1);
    send(&mut p1, &mut p2, 5, &data2);
    send(&mut p1, &mut p2, 5, &data3);
    assert_eq!(Some(data1), recv(&mut p2, 5));
    assert_eq!(Some(data2), recv(&mut p2, 5));
    assert_eq!(Some(data3), recv(&mut p2, 5));
}

#[test]
fn test_large_payload() {
    let mut p1 = peer(1, 4001);
    let mut p2 = peer(2, 4002);
    connect(&mut p1, &mut p2, 9);
    let data: Vec<u8> = (1..655350).map(|n: usize| (n % 256) as u8).collect();
    send(&mut p1, &mut p2, 9, &data);
    assert_eq!(Some(data), recv(&mut p2, 9));
}

#[test]
fn test_session_id_reuse() {
    let mut p1 = peer(1, 4001);
    let mut p2 = peer(2, 4002);
    let id = 0x1234;
    let (o1, o2) = connect(&mut p1, &mut p2, id);
    send(&mut p1, &mut p2, id, &[0, 1, 2, 3]);
    assert_eq!(Some(vec![0, 1, 2, 3]), recv(&mut p2, id));

    // both sides connect again under the same identifier
    connect(&mut p1, &mut p2, id);
    // the closes of the first incarnation arrive late and leave the new one alone
    p1.handler.remove_session(id, Some(o1));
    p2.handler.remove_session(id, Some(o2));

    send(&mut p1, &mut p2, id, &[4, 5, 6, 7]);
    assert_eq!(Some(vec![4, 5, 6, 7]), recv(&mut p2, id));
}

#[test]
fn test_drop_session() {
    let mut p1 = peer(1, 4001);
    let mut p2 = peer(2, 4002);
    let (o1, _) = connect(&mut p1, &mut p2, 3);
    p1.handler.remove_session(3, Some(o1));
    assert_eq!(p1.handler.send(3, &[1]).unwrap_err(), HandlerError::NotEstablished);
    // p2 hears nothing more: two liveness checks later the session is dead
    assert_eq!(p2.handler.check_alive(3), Some(true));
    assert_eq!(p2.handler.check_alive(3), Some(false));
    assert_eq!(p2.handler.is_dead(3), Some(true));
    assert_eq!(p2.handler.send(3, &[1]).unwrap_err(), HandlerError::Disconnected);
    assert!(recv(&mut p2, 3).is_none());
    // a dead session is dropped when read from
    assert!(p2.handler.remote_addr(3).is_none());
}

#[test]
fn incoming_packets_keep_a_session_alive() {
    let mut p1 = peer(1, 4001);
    let mut p2 = peer(2, 4002);
    connect(&mut p1, &mut p2, 8);
    for _ in 0..4 {
        assert_eq!(p2.handler.check_alive(8), Some(true));
        let k = p1.handler.keepalive(8).unwrap();
        deliver(&mut p2, p1.addr, vec![k]);
    }
    assert_eq!(p2.handler.is_dead(8), Some(false));
}

#[test]
fn malformed_datagram_is_refused() {
    let mut p1 = peer(1, 4001);
    assert_eq!(
        p1.handler.handle_incoming(p1.addr, &[1, 2, 3]),
        Err(HandlerError::Malformed)
    );
}

#[test]
fn unknown_session_ignores_datagrams_and_refuses_sends() {
    let mut p1 = peer(1, 4001);
    let packet = veq::session::SessionPacket::new(42, vec![0, 0, 0, 0]).encode();
    assert_eq!(p1.handler.handle_incoming(p1.addr, &packet), Ok(None));
    assert_eq!(p1.handler.send(42, &[1]).unwrap_err(), HandlerError::NotEstablished);
    assert!(p1.handler.recv_from(42).is_none());
    assert!(p1.handler.pending_packets(42).is_empty());
}

#[test]
fn exactly_one_side_initiates() {
    let p1 = peer(1, 4001);
    let p2 = peer(2, 4002);
    assert_ne!(p1.info.is_initiator(&p2.info), p2.info.is_initiator(&p1.info));
}

#[test]
fn pokes_go_to_every_address_of_the_peer() {
    let mut p1 = peer(1, 4001);
    let mut p2 = peer(2, 4002);
    p2.info.addresses.push(PeerAddr::V4 { ip: 0x0a00_0002, port: 4002 });
    let info2 = p2.info.clone();
    p1.handler.respond(11, info2).unwrap();
    let packets = p1.handler.pending_packets(11);
    assert_eq!(packets.len(), 2);
    assert_eq!(packets[0].0, p2.addr);
    let _ = &mut p2;
}

#[test]
fn oversized_payload_is_dropped_not_sent() {
    let mut p1 = peer(1, 4001);
    let mut p2 = peer(2, 4002);
    connect(&mut p1, &mut p2, 21);
    assert_eq!(p1.handler.send(21, &vec![7u8; 70000]), Ok(None));
    // a payload that fits still goes through afterwards
    let (dest, _) = p1.handler.send(21, &[1, 2, 3]).unwrap().unwrap();
    assert_eq!(dest, p2.addr);
}

#[test]
fn replayed_datagram_is_ignored() {
    let mut p1 = peer(1, 4001);
    let mut p2 = peer(2, 4002);
    connect(&mut p1, &mut p2, 22);
    let (_, bytes) = p1.handler.send(22, &[9, 9, 9]).unwrap().unwrap();
    p2.handler.handle_incoming(p1.addr, &bytes).unwrap();
    p2.handler.handle_incoming(p1.addr, &bytes).unwrap();
    assert_eq!(p2.handler.recv_from(22), Some(Some(vec![9, 9, 9])));
    assert_eq!(p2.handler.recv_from(22), Some(None));
}

#[test]
fn initiations_go_to_every_address_of_the_peer() {
    let mut p1 = peer(1, 4001);
    let mut p2 = peer(2, 4002);
    p2.info.addresses.push(PeerAddr::V4 { ip: 0x0a00_0002, port: 4002 });
    p1.handler.initiate(12, p2.info.clone()).unwrap();
    let packets = p1.handler.pending_packets(12);
    assert_eq!(packets.len(), 2);
    assert_eq!(packets[0].0, p2.addr);
    assert_eq!(packets[1].0, PeerAddr::V4 { ip: 0x0a00_0002, port: 4002 });
    assert_eq!(packets[0].1, packets[1].1);
    let _ = &mut p2;
}

#[test]
fn overlong_peer_key_is_refused() {
    let mut p1 = peer(1, 4001);
    let mut info = peer(2, 4002).info;
    info.public_key.0 = vec![7u8; 57];
    assert_eq!(p1.handler.respond(30, info.clone()), Err(veq::snow_types::SnowError::Input));
    assert_eq!(p1.handler.initiate(30, info), Err(veq::snow_types::SnowError::Input));
    assert!(p1.handler.pending_packets(30).is_empty());
}

#[test]
fn repeated_peer_address_is_poked_once() {
    let mut p1 = peer(1, 4001);
    let mut info = peer(2, 4002).info;
    let extra = PeerAddr::V4 { ip: 0x0a00_0002, port: 4002 };
    info.addresses = vec![info.addresses[0], extra, info.addresses[0], extra];
    p1.handler.respond(31, info.clone()).unwrap();
    let packets = p1.handler.pending_packets(31);
    assert_eq!(packets.len(), 2);
    assert_eq!(packets[0].0, info.addresses[0]);
    assert_eq!(packets[1].0, extra);
}
