//! Packets, handshake messages, and the states a session passes through.
//!
//! Every datagram is a [`SessionPacket`]: a session identifier and a body. The body is
//! a [`RawMessage`]: a poke (the responder's "I am here"), one of the two handshake
//! messages, or an encrypted [`Message`] of an established session.
//!
//! A session starts either as a poker (the responder announces itself until the
//! initiation arrives), then becomes a pending responder (it repeats its response until
//! the first encrypted keepalive arrives); or as a pending initiator (it repeats the
//! initiation until a response arrives). Both end as an established [`Session`].
//! The repetitions are driven from outside by timers; the functions here say what to send
//! and decide what each incoming packet does.
use crate::snow_types::{
    fresh_transport, lemma_nonced_roundtrip, HandshakeSetup, next_after_send, parse_nonced, window_after,
    window_rejects,
    LossyTransportState, SnowError, SnowInitiation, SnowInitiator, SnowResponder, SnowResponse,
    ReceiveResponseResult,
};
use crate::veq::{distinct_addresses, distinct_of, ConnectionInfo, PeerAddr, VeqError};
use crate::wire::{
    encode_bytes, encode_id, le4, lemma_parse_bytes_encoded, lemma_parse_bytes_prefix,
    lemma_parse_id_encoded, lemma_parse_id_prefix, lemma_parse_u32_encoded, lemma_parse_u32_prefix,
    parse_bytes, parse_id, parse_u32, read_bytes, read_id, read_u32, write_bytes, write_id,
    write_u32,
};
use std::collections::VecDeque;
use vstd::prelude::*;

verus! {

/// Identifies a session; both peers pick the same one.
pub type SessionId = u128;

// ---------------------------------------------------------------------------
// SessionPacket
// ---------------------------------------------------------------------------

/// A datagram: the session it belongs to and its body.
#[derive(Debug)]
pub struct SessionPacket {
    pub id: SessionId,
    pub data: Vec<u8>,
}

/// The bytes of a datagram: the session identifier, then the body as a byte string.
pub open spec fn encode_session_packet(id: u128, data: Seq<u8>) -> Seq<u8> {
    encode_id(id) + encode_bytes(data)
}

/// Reads a datagram; bytes after it are ignored.
pub open spec fn parse_session_packet(s: Seq<u8>) -> Option<(u128, Seq<u8>)> {
    match parse_id(s) {
        Some((id, r)) => match parse_bytes(r) {
            Some((data, _)) => Some((id, data)),
            None => None,
        },
        None => None,
    }
}

/// Decoding an encoded datagram, with anything after it, gives it back.
pub proof fn lemma_session_packet_roundtrip(id: u128, data: Seq<u8>, rest: Seq<u8>)
    requires
        data.len() <= u64::MAX,
    ensures
        parse_session_packet(encode_session_packet(id, data) + rest) == Some((id, data)),
{
    lemma_parse_bytes_encoded(data, rest);
    lemma_parse_id_encoded(id, encode_bytes(data) + rest);
    assert(encode_session_packet(id, data) + rest =~= encode_id(id) + (encode_bytes(data) + rest));
}

/// Whatever decodes as a datagram starts with that datagram's encoding.
pub proof fn lemma_session_packet_prefix(s: Seq<u8>)
    ensures
        parse_session_packet(s) matches Some((id, data)) ==> exists|rest: Seq<u8>|
            s == encode_session_packet(id, data) + rest,
{
    if let Some((id, data)) = parse_session_packet(s) {
        lemma_parse_id_prefix(s);
        let r = parse_id(s).unwrap().1;
        lemma_parse_bytes_prefix(r);
        let rest = parse_bytes(r).unwrap().1;
        assert(s =~= encode_session_packet(id, data) + rest);
    }
}

impl SessionPacket {
    pub fn new(id: SessionId, data: Vec<u8>) -> (p: SessionPacket)
        ensures
            p.id == id,
            p.data@ == data@,
    {
        SessionPacket { id, data }
    }

    /// The datagram's bytes.
    pub fn encode(&self) -> (r: Vec<u8>)
        ensures
            r@ == encode_session_packet(self.id, self.data@),
    {
        let mut out: Vec<u8> = Vec::new();
        write_id(&mut out, self.id);
        write_bytes(&mut out, self.data.as_slice());
        assert(out@ =~= encode_session_packet(self.id, self.data@));
        out
    }

    /// Reads a datagram from the front of `bytes`.
    pub fn decode(bytes: &[u8]) -> (r: Option<SessionPacket>)
        ensures
            match r {
                Some(p) => parse_session_packet(bytes@) == Some((p.id, p.data@)),
                None => parse_session_packet(bytes@) is None,
            },
    {
        assert(bytes@.skip(0) =~= bytes@);
        let (id, p) = match read_id(bytes, 0) {
            Some(x) => x,
            None => return None,
        };
        match read_bytes(bytes, p) {
            Some((data, _)) => Some(SessionPacket { id, data }),
            None => None,
        }
    }
}

// ---------------------------------------------------------------------------
// RawMessage and Message
// ---------------------------------------------------------------------------

/// The body of a datagram.
pub enum RawMessage {
    HandshakePoke,
    HandshakeInitiation(SnowInitiation),
    HandshakeResponse(SnowResponse),
    Encrypted(Vec<u8>),
}

/// The mathematical content of a datagram body.
pub enum RawMessageView {
    HandshakePoke,
    HandshakeInitiation(Seq<u8>),
    HandshakeResponse(Seq<u8>),
    Encrypted(Seq<u8>),
}

impl View for RawMessage {
    type V = RawMessageView;

    open spec fn view(&self) -> RawMessageView {
        match self {
            RawMessage::HandshakePoke => RawMessageView::HandshakePoke,
            RawMessage::HandshakeInitiation(i) => RawMessageView::HandshakeInitiation(i@),
            RawMessage::HandshakeResponse(r) => RawMessageView::HandshakeResponse(r@),
            RawMessage::Encrypted(e) => RawMessageView::Encrypted(e@),
        }
    }
}

/// The bytes of a body: the variant's index (0 to 3) in four bytes, then the variant's
/// bytes as a byte string.
pub open spec fn encode_raw(m: RawMessageView) -> Seq<u8> {
    match m {
        RawMessageView::HandshakePoke => le4(0),
        RawMessageView::HandshakeInitiation(b) => le4(1) + encode_bytes(b),
        RawMessageView::HandshakeResponse(b) => le4(2) + encode_bytes(b),
        RawMessageView::Encrypted(b) => le4(3) + encode_bytes(b),
    }
}

/// Reads a body; an unknown variant index is refused, and bytes after the body are
/// ignored.
pub open spec fn parse_raw(s: Seq<u8>) -> Option<RawMessageView> {
    match parse_u32(s) {
        Some((tag, r)) => if tag == 0 {
            Some(RawMessageView::HandshakePoke)
        } else if tag <= 3 {
            match parse_bytes(r) {
                Some((b, _)) => Some(
                    if tag == 1 {
                        RawMessageView::HandshakeInitiation(b)
                    } else if tag == 2 {
                        RawMessageView::HandshakeResponse(b)
                    } else {
                        RawMessageView::Encrypted(b)
                    },
                ),
                None => None,
            }
        } else {
            None
        },
        None => None,
    }
}

/// The bytes a body carries, if any.
pub open spec fn raw_bytes(m: RawMessageView) -> Seq<u8> {
    match m {
        RawMessageView::HandshakePoke => Seq::empty(),
        RawMessageView::HandshakeInitiation(b) => b,
        RawMessageView::HandshakeResponse(b) => b,
        RawMessageView::Encrypted(b) => b,
    }
}

/// Decoding an encoded body, with anything after it, gives it back.
pub proof fn lemma_raw_roundtrip(m: RawMessageView, rest: Seq<u8>)
    requires
        raw_bytes(m).len() <= u64::MAX,
    ensures
        parse_raw(encode_raw(m) + rest) == Some(m),
{
    match m {
        RawMessageView::HandshakePoke => {
            lemma_parse_u32_encoded(0, rest);
        },
        _ => {
            let b = raw_bytes(m);
            let tag: u32 = match m {
                RawMessageView::HandshakeInitiation(_) => 1,
                RawMessageView::HandshakeResponse(_) => 2,
                _ => 3,
            };
            lemma_parse_bytes_encoded(b, rest);
            lemma_parse_u32_encoded(tag, encode_bytes(b) + rest);
            assert(encode_raw(m) + rest =~= le4(tag) + (encode_bytes(b) + rest));
        },
    }
}

/// Whatever decodes as a body starts with that body's encoding.
pub proof fn lemma_raw_prefix(s: Seq<u8>)
    ensures
        parse_raw(s) matches Some(m) ==> exists|rest: Seq<u8>| s == encode_raw(m) + rest,
{
    if let Some(m) = parse_raw(s) {
        lemma_parse_u32_prefix(s);
        let r = parse_u32(s).unwrap().1;
        if parse_u32(s).unwrap().0 == 0 {
            assert(s == encode_raw(m) + r);
        } else {
            lemma_parse_bytes_prefix(r);
            let rest = parse_bytes(r).unwrap().1;
            assert(s =~= encode_raw(m) + rest);
        }
    }
}

impl RawMessage {
    /// The body's bytes.
    pub fn encode(&self) -> (r: Vec<u8>)
        ensures
            r@ == encode_raw(self@),
    {
        let mut out: Vec<u8> = Vec::new();
        match self {
            RawMessage::HandshakePoke => {
                write_u32(&mut out, 0);
            },
            RawMessage::HandshakeInitiation(i) => {
                write_u32(&mut out, 1);
                write_bytes(&mut out, i.0.as_slice());
            },
            RawMessage::HandshakeResponse(r) => {
                write_u32(&mut out, 2);
                write_bytes(&mut out, r.0.as_slice());
            },
            RawMessage::Encrypted(e) => {
                write_u32(&mut out, 3);
                write_bytes(&mut out, e.as_slice());
            },
        }
        assert(out@ =~= encode_raw(self@));
        out
    }

    /// Reads a body from the front of `bytes`.
    pub fn decode(bytes: &[u8]) -> (r: Option<RawMessage>)
        ensures
            match r {
                Some(m) => parse_raw(bytes@) == Some(m@),
                None => parse_raw(bytes@) is None,
            },
    {
        assert(bytes@.skip(0) =~= bytes@);
        let (tag, p) = match read_u32(bytes, 0) {
            Some(x) => x,
            None => return None,
        };
        if tag == 0 {
            return Some(RawMessage::HandshakePoke);
        }
        if tag > 3 {
            return None;
        }
        match read_bytes(bytes, p) {
            Some((b, _)) => {
                if tag == 1 {
                    Some(RawMessage::HandshakeInitiation(SnowInitiation(b)))
                } else if tag == 2 {
                    Some(RawMessage::HandshakeResponse(SnowResponse(b)))
                } else {
                    Some(RawMessage::Encrypted(b))
                }
            },
            None => None,
        }
    }
}

/// What an established session carries inside its encryption.
#[derive(Debug)]
pub enum Message {
    Keepalive,
    Payload(Vec<u8>),
}

/// The mathematical content of a [`Message`].
pub enum MessageView {
    Keepalive,
    Payload(Seq<u8>),
}

impl View for Message {
    type V = MessageView;

    open spec fn view(&self) -> MessageView {
        match self {
            Message::Keepalive => MessageView::Keepalive,
            Message::Payload(p) => MessageView::Payload(p@),
        }
    }
}

/// The bytes of a message: the variant's index (0 or 1) in four bytes, then the payload
/// as a byte string.
pub open spec fn encode_message(m: MessageView) -> Seq<u8> {
    match m {
        MessageView::Keepalive => le4(0),
        MessageView::Payload(b) => le4(1) + encode_bytes(b),
    }
}

/// Reads a message; bytes after it are ignored.
pub open spec fn parse_message(s: Seq<u8>) -> Option<MessageView> {
    match parse_u32(s) {
        Some((tag, r)) => if tag == 0 {
            Some(MessageView::Keepalive)
        } else if tag == 1 {
            match parse_bytes(r) {
                Some((b, _)) => Some(MessageView::Payload(b)),
                None => None,
            }
        } else {
            None
        },
        None => None,
    }
}

/// Decoding an encoded message, with anything after it, gives it back.
pub proof fn lemma_message_roundtrip(m: MessageView, rest: Seq<u8>)
    requires
        m matches MessageView::Payload(b) ==> b.len() <= u64::MAX,
    ensures
        parse_message(encode_message(m) + rest) == Some(m),
{
    match m {
        MessageView::Keepalive => {
            lemma_parse_u32_encoded(0, rest);
        },
        MessageView::Payload(b) => {
            lemma_parse_bytes_encoded(b, rest);
            lemma_parse_u32_encoded(1, encode_bytes(b) + rest);
            assert(encode_message(m) + rest =~= le4(1) + (encode_bytes(b) + rest));
        },
    }
}

impl Message {
    /// The message's bytes.
    pub fn encode(&self) -> (r: Vec<u8>)
        ensures
            r@ == encode_message(self@),
    {
        let mut out: Vec<u8> = Vec::new();
        match self {
            Message::Keepalive => {
                write_u32(&mut out, 0);
            },
            Message::Payload(p) => {
                write_u32(&mut out, 1);
                write_bytes(&mut out, p.as_slice());
            },
        }
        assert(out@ =~= encode_message(self@));
        out
    }

    /// Reads a message from the front of `bytes`.
    pub fn decode(bytes: &[u8]) -> (r: Option<Message>)
        ensures
            match r {
                Some(m) => parse_message(bytes@) == Some(m@),
                None => parse_message(bytes@) is None,
            },
    {
        assert(bytes@.skip(0) =~= bytes@);
        let (tag, p) = match read_u32(bytes, 0) {
            Some(x) => x,
            None => return None,
        };
        if tag == 0 {
            return Some(Message::Keepalive);
        }
        if tag != 1 {
            return None;
        }
        match read_bytes(bytes, p) {
            Some((b, _)) => Some(Message::Payload(b)),
            None => None,
        }
    }
}

/// The datagram of session `id` whose body is `m`.
pub open spec fn packet_bytes(id: u128, m: RawMessageView) -> Seq<u8> {
    encode_session_packet(id, encode_raw(m))
}

/// Builds the datagram of session `id` whose body is `m`.
fn make_packet(id: SessionId, m: &RawMessage) -> (r: Vec<u8>)
    ensures
        r@ == packet_bytes(id, m@),
{
    SessionPacket::new(id, m.encode()).encode()
}

/// The datagrams announcing `m` to each of `addresses`, in order.
fn packets_to_all(id: SessionId, addresses: &Vec<PeerAddr>, m: &RawMessage) -> (r: Vec<
    (PeerAddr, Vec<u8>),
>)
    ensures
        r@.len() == addresses@.len(),
        forall|i: int|
            0 <= i < r@.len() ==> (#[trigger] r@[i]).0 == addresses@[i] && r@[i].1@ == packet_bytes(
                id,
                m@,
            ),
{
    let bytes = make_packet(id, m);
    let mut out: Vec<(PeerAddr, Vec<u8>)> = Vec::new();
    let mut i: usize = 0;
    while i < addresses.len()
        invariant
            i <= addresses@.len(),
            bytes@ == packet_bytes(id, m@),
            out@.len() == i,
            forall|j: int|
                0 <= j < i ==> (#[trigger] out@[j]).0 == addresses@[j] && out@[j].1@
                    == packet_bytes(id, m@),
        decreases addresses@.len() - i,
    {
        let copy = crate::wire::copy_range(bytes.as_slice(), 0, bytes.len());
        assert(bytes@.subrange(0, bytes@.len() as int) =~= bytes@);
        out.push((addresses[i], copy));
        i = i + 1;
    }
    out
}

// ---------------------------------------------------------------------------
// The responder's first stage: poking until the initiation arrives
// ---------------------------------------------------------------------------

/// A responder that announces itself at every address of the peer until the peer's
/// initiation arrives.
pub struct PendingSessionPoker {
    conn_info: ConnectionInfo,
    working_remote_addr: Option<(PeerAddr, SnowInitiation)>,
    id: SessionId,
    responder: SnowResponder,
}

impl PendingSessionPoker {
    pub closed spec fn spec_id(&self) -> SessionId {
        self.id
    }

    pub closed spec fn spec_addresses(&self) -> Seq<PeerAddr> {
        self.conn_info.addresses@
    }

    /// Where the initiation came from, and the initiation, once one has arrived.
    pub closed spec fn spec_working(&self) -> Option<(PeerAddr, Seq<u8>)> {
        match self.working_remote_addr {
            Some((a, i)) => Some((a, i@)),
            None => None,
        }
    }

    /// How the responder's handshake was set up.
    pub closed spec fn spec_setup(&self) -> HandshakeSetup {
        self.responder.spec_setup()
    }

    pub fn new(id: SessionId, conn_info: ConnectionInfo, responder: SnowResponder) -> (p:
        PendingSessionPoker)
        ensures
            p.spec_id() == id,
            distinct_of(p.spec_addresses(), conn_info.addresses@),
            p.spec_working() is None,
            p.spec_setup() == responder.spec_setup(),
    {
        let addresses = distinct_addresses(&conn_info.addresses);
        let conn_info = ConnectionInfo { addresses, public_key: conn_info.public_key };
        PendingSessionPoker { conn_info, working_remote_addr: None, id, responder }
    }

    /// The pokes to send, one to each address of the peer.
    pub fn poke_packets(&self) -> (r: Vec<(PeerAddr, Vec<u8>)>)
        ensures
            r@.len() == self.spec_addresses().len(),
            forall|i: int|
                0 <= i < r@.len() ==> (#[trigger] r@[i]).0 == self.spec_addresses()[i] && r@[i].1@
                    == packet_bytes(self.spec_id(), RawMessageView::HandshakePoke),
    {
        packets_to_all(self.id, &self.conn_info.addresses, &RawMessage::HandshakePoke)
    }

    /// An initiation remembers where it came from; anything else is ignored.
    pub fn handle_incoming(&mut self, src: PeerAddr, packet: &SessionPacket)
        ensures
            final(self).spec_id() == old(self).spec_id(),
            final(self).spec_addresses() == old(self).spec_addresses(),
            final(self).spec_working() == match parse_raw(packet.data@) {
                Some(RawMessageView::HandshakeInitiation(i)) => Some((src, i)),
                _ => old(self).spec_working(),
            },
            !(parse_raw(packet.data@) matches Some(RawMessageView::HandshakeInitiation(_)))
                ==> *final(self) == *old(self),
    {
        if let Some(RawMessage::HandshakeInitiation(initiation)) = RawMessage::decode(
            packet.data.as_slice(),
        ) {
            self.working_remote_addr = Some((src, initiation));
        }
    }

    /// Whether an initiation has arrived.
    pub fn is_ready(&self) -> (r: bool)
        ensures
            r == self.spec_working() is Some,
    {
        self.working_remote_addr.is_some()
    }

    /// Answers the initiation that arrived: the responder reads it and writes the
    /// response, and the session moves on to wait for the initiator's first keepalive.
    /// `None` when no initiation has arrived yet.
    pub fn to_responder(self) -> (r: Option<Result<PendingSessionResponder, SnowError>>)
        ensures
            r is None <==> self.spec_working() is None,
            r matches Some(Ok(p)) ==> {
                &&& p.spec_id() == self.spec_id()
                &&& p.spec_remote_addr() == self.spec_working().unwrap().0
                &&& !p.spec_ready()
                &&& fresh_transport(p.spec_transport())
            },
    {
        let PendingSessionPoker { conn_info, working_remote_addr, id, responder } = self;
        match working_remote_addr {
            Some((addr, initiation)) => match responder.response(initiation) {
                Ok((transport, response)) => Some(
                    Ok(PendingSessionResponder::new(id, addr, transport, response)),
                ),
                Err(e) => Some(Err(e)),
            },
            None => None,
        }
    }
}

// ---------------------------------------------------------------------------
// The initiator: repeating the initiation until the response arrives
// ---------------------------------------------------------------------------

/// An initiator that sends its initiation to every address of the peer until a
/// response arrives.
pub struct PendingSessionInitiator {
    conn_info: ConnectionInfo,
    working_remote_addr: Option<(PeerAddr, SnowResponse)>,
    id: SessionId,
    initiator: SnowInitiator,
}

/// What becomes of an initiator once a response is tried.
pub enum InitiatorOutcome {
    /// The handshake is complete.
    Established(Session),
    /// No usable response yet; keep waiting.
    Pending(PendingSessionInitiator),
    /// The handshake broke down.
    Failed(SnowError),
}

impl PendingSessionInitiator {
    pub closed spec fn spec_id(&self) -> SessionId {
        self.id
    }

    pub closed spec fn spec_addresses(&self) -> Seq<PeerAddr> {
        self.conn_info.addresses@
    }

    /// The initiation this side repeats.
    pub closed spec fn spec_initiation(&self) -> Seq<u8> {
        self.initiator.spec_initiation()
    }

    /// Where the response came from, and the response, once one has arrived.
    pub closed spec fn spec_working(&self) -> Option<(PeerAddr, Seq<u8>)> {
        match self.working_remote_addr {
            Some((a, r)) => Some((a, r@)),
            None => None,
        }
    }

    /// How the initiator's handshake was set up.
    pub closed spec fn spec_setup(&self) -> HandshakeSetup {
        self.initiator.spec_setup()
    }

    pub fn new(id: SessionId, conn_info: ConnectionInfo, initiator: SnowInitiator) -> (p:
        PendingSessionInitiator)
        ensures
            p.spec_id() == id,
            distinct_of(p.spec_addresses(), conn_info.addresses@),
            p.spec_initiation() == initiator.spec_initiation(),
            p.spec_setup() == initiator.spec_setup(),
            p.spec_working() is None,
    {
        let addresses = distinct_addresses(&conn_info.addresses);
        let conn_info = ConnectionInfo { addresses, public_key: conn_info.public_key };
        PendingSessionInitiator { conn_info, working_remote_addr: None, id, initiator }
    }

    /// The initiations to send, one to each address of the peer.
    pub fn initiation_packets(&self) -> (r: Vec<(PeerAddr, Vec<u8>)>)
        ensures
            r@.len() == self.spec_addresses().len(),
            forall|i: int|
                0 <= i < r@.len() ==> (#[trigger] r@[i]).0 == self.spec_addresses()[i] && r@[i].1@
                    == packet_bytes(
                    self.spec_id(),
                    RawMessageView::HandshakeInitiation(self.spec_initiation()),
                ),
    {
        let m = RawMessage::HandshakeInitiation(self.initiator.initiation());
        packets_to_all(self.id, &self.conn_info.addresses, &m)
    }

    /// A response remembers where it came from; anything else is ignored.
    pub fn handle_incoming(&mut self, src: PeerAddr, packet: &SessionPacket)
        ensures
            final(self).spec_id() == old(self).spec_id(),
            final(self).spec_addresses() == old(self).spec_addresses(),
            final(self).spec_initiation() == old(self).spec_initiation(),
            final(self).spec_setup() == old(self).spec_setup(),
            final(self).spec_working() == match parse_raw(packet.data@) {
                Some(RawMessageView::HandshakeResponse(r)) => Some((src, r)),
                _ => old(self).spec_working(),
            },
            !(parse_raw(packet.data@) matches Some(RawMessageView::HandshakeResponse(_)))
                ==> *final(self) == *old(self),
    {
        if let Some(RawMessage::HandshakeResponse(response)) = RawMessage::decode(
            packet.data.as_slice(),
        ) {
            self.working_remote_addr = Some((src, response));
        }
    }

    /// Whether a response has arrived.
    pub fn is_ready(&self) -> (r: bool)
        ensures
            r == self.spec_working() is Some,
    {
        self.working_remote_addr.is_some()
    }

    /// Completes the handshake with the response that arrived. Without a response, or
    /// with one the handshake refuses, the initiator is handed back, still waiting (a
    /// refused response is forgotten).
    pub fn to_session(self) -> (r: InitiatorOutcome)
        ensures
            self.spec_working() is None ==> r == InitiatorOutcome::Pending(self),
            r matches InitiatorOutcome::Pending(p) ==> {
                &&& p.spec_id() == self.spec_id()
                &&& p.spec_addresses() == self.spec_addresses()
                &&& p.spec_initiation() == self.spec_initiation()
                &&& p.spec_setup() == self.spec_setup()
                &&& p.spec_working() is None
            },
            r matches InitiatorOutcome::Established(s) ==> {
                &&& self.spec_working() is Some
                &&& s.spec_id() == self.spec_id()
                &&& s.spec_remote_addr() == self.spec_working().unwrap().0
                &&& s.spec_fresh()
            },
    {
        let PendingSessionInitiator { conn_info, working_remote_addr, id, initiator } = self;
        match working_remote_addr {
            None => InitiatorOutcome::Pending(
                PendingSessionInitiator { conn_info, working_remote_addr: None, id, initiator },
            ),
            Some((addr, response)) => match initiator.receive_response(response) {
                ReceiveResponseResult::Established(transport) => InitiatorOutcome::Established(
                    Session::new(id, addr, transport),
                ),
                ReceiveResponseResult::Refused(initiator) => InitiatorOutcome::Pending(
                    PendingSessionInitiator { conn_info, working_remote_addr: None, id, initiator },
                ),
                ReceiveResponseResult::Failed(e) => InitiatorOutcome::Failed(e),
            },
        }
    }
}

// ---------------------------------------------------------------------------
// The responder's second stage: repeating the response until a keepalive arrives
// ---------------------------------------------------------------------------

/// A responder that has answered and repeats its response to the initiator until the
/// initiator's first encrypted keepalive shows that the response got through.
pub struct PendingSessionResponder {
    remote_addr: PeerAddr,
    id: SessionId,
    transport: LossyTransportState,
    ready: bool,
    response: SnowResponse,
}

impl PendingSessionResponder {
    pub closed spec fn spec_id(&self) -> SessionId {
        self.id
    }

    pub closed spec fn spec_remote_addr(&self) -> PeerAddr {
        self.remote_addr
    }

    pub closed spec fn spec_ready(&self) -> bool {
        self.ready
    }

    pub closed spec fn spec_response(&self) -> Seq<u8> {
        self.response@
    }

    pub closed spec fn spec_transport(&self) -> LossyTransportState {
        self.transport
    }

    pub fn new(
        id: SessionId,
        remote_addr: PeerAddr,
        transport: LossyTransportState,
        response: SnowResponse,
    ) -> (p: PendingSessionResponder)
        ensures
            p.spec_id() == id,
            p.spec_remote_addr() == remote_addr,
            !p.spec_ready(),
            p.spec_response() == response@,
            p.spec_transport() == transport,
    {
        PendingSessionResponder { remote_addr, id, transport, ready: false, response }
    }

    /// The response to repeat, addressed to where the initiation came from.
    pub fn response_packet(&self) -> (r: (PeerAddr, Vec<u8>))
        ensures
            r.0 == self.spec_remote_addr(),
            r.1@ == packet_bytes(
                self.spec_id(),
                RawMessageView::HandshakeResponse(self.spec_response()),
            ),
    {
        let m = RawMessage::HandshakeResponse(SnowResponse(
            crate::wire::copy_range(self.response.0.as_slice(), 0, self.response.0.len()),
        ));
        assert(self.response.0@.subrange(0, self.response.0@.len() as int) =~= self.response.0@);
        (self.remote_addr, make_packet(self.id, &m))
    }

    /// An encrypted keepalive from the initiator completes the handshake. Every
    /// well-framed encrypted body goes through the transport's nonce window; anything
    /// else is ignored.
    pub fn handle_incoming(&mut self, src: PeerAddr, packet: &SessionPacket)
        requires
            old(self).spec_transport().wf(),
        ensures
            final(self).spec_transport().wf(),
            final(self).spec_id() == old(self).spec_id(),
            final(self).spec_remote_addr() == old(self).spec_remote_addr(),
            final(self).spec_response() == old(self).spec_response(),
            final(self).spec_transport().spec_next_nonce() == old(self).spec_transport().spec_next_nonce(),
            final(self).spec_transport().spec_size() == old(self).spec_transport().spec_size(),
            old(self).spec_ready() ==> final(self).spec_ready(),
            final(self).spec_transport().spec_opened() == old(self).spec_transport().spec_opened()
                && final(self).spec_ready() == old(self).spec_ready() || exists|plain: Seq<u8>|
                #![trigger parse_message(plain)]
                fits_frame(packet.data@, old(self).spec_transport().window(), plain)
                    && final(self).spec_transport().spec_opened() == old(
                    self,
                ).spec_transport().spec_opened().push(plain) && final(self).spec_ready() == (old(
                    self,
                ).spec_ready() || parse_message(plain) == Some(MessageView::Keepalive)),
            match parse_raw(packet.data@) {
                Some(RawMessageView::Encrypted(e)) => match parse_nonced(e) {
                    Some((nonce, _)) => final(self).spec_transport().window() == if window_rejects(
                        old(self).spec_transport().window(),
                        nonce,
                    ) {
                        old(self).spec_transport().window()
                    } else {
                        window_after(
                            old(self).spec_transport().window(),
                            nonce,
                            old(self).spec_transport().spec_size(),
                        )
                    },
                    None => *final(self) == *old(self),
                },
                _ => *final(self) == *old(self),
            },
    {
        if let Some(RawMessage::Encrypted(encrypted)) = RawMessage::decode(packet.data.as_slice()) {
            if crate::snow_types::Nonced::decode(encrypted.as_slice()).is_some() {
                let ghost w = self.transport.window();
                if let Ok(plain) = self.transport.read_message(encrypted.as_slice()) {
                    assert(fits_frame(packet.data@, w, plain@));
                    self.note_plaintext(plain.as_slice());
                }
            }
        }
    }

    /// A decrypted keepalive marks the response as received; any other message leaves
    /// the responder as it is.
    fn note_plaintext(&mut self, plain: &[u8])
        ensures
            final(self).spec_ready() == (old(self).spec_ready() || parse_message(plain@) == Some(
                MessageView::Keepalive,
            )),
            final(self).spec_id() == old(self).spec_id(),
            final(self).spec_remote_addr() == old(self).spec_remote_addr(),
            final(self).spec_response() == old(self).spec_response(),
            final(self).spec_transport() == old(self).spec_transport(),
    {
        if let Some(Message::Keepalive) = Message::decode(plain) {
            self.ready = true;
        }
    }

    /// Whether the initiator's keepalive has arrived.
    pub fn is_ready(&self) -> (r: bool)
        ensures
            r == self.spec_ready(),
    {
        self.ready
    }

    /// The established session, once the keepalive has arrived.
    pub fn to_session(self) -> (r: Option<Session>)
        ensures
            r is Some <==> self.spec_ready(),
            r matches Some(s) ==> s.spec_id() == self.spec_id() && s.spec_remote_addr()
                == self.spec_remote_addr() && s.spec_transport() == self.spec_transport()
                && s.spec_inbox().len() == 0 && !s.spec_dead() && s.spec_heartbeat(),
    {
        if self.ready {
            Some(Session::new(self.id, self.remote_addr, self.transport))
        } else {
            None
        }
    }
}

// ---------------------------------------------------------------------------
// Established sessions
// ---------------------------------------------------------------------------

/// The liveness state after one check: a session that heard nothing since the previous
/// check dies; otherwise it waits for the next packet.
pub open spec fn liveness_check(heartbeat: bool, dead: bool) -> (bool, bool) {
    if !heartbeat {
        (heartbeat, true)
    } else {
        (false, dead)
    }
}

/// A session that hears nothing through two consecutive checks is dead after the
/// second, whatever its state before.
pub proof fn lemma_silent_session_dies(heartbeat: bool, dead: bool)
    ensures
        ({
            let (h1, d1) = liveness_check(heartbeat, dead);
            liveness_check(h1, d1).1
        }),
{
}

/// `plain` can be what the encrypted body of datagram body `body` decrypts to, for a
/// transport whose window is `window`: the body is an encrypted message framed with a
/// nonce that the window does not refuse, and `plain` is as long as the ciphertext
/// without its 16-byte tag.
pub open spec fn fits_frame(body: Seq<u8>, window: Seq<u64>, plain: Seq<u8>) -> bool {
    &&& parse_raw(body) matches Some(RawMessageView::Encrypted(e))
    &&& parse_nonced(e) matches Some((nonce, ct))
    &&& !window_rejects(window, nonce)
    &&& plain.len() + 16 == ct.len()
}

/// The liveness state after a run of events, oldest first: `true` for a packet heard,
/// which sets the heartbeat, `false` for a liveness check.
pub open spec fn liveness_run(heartbeat: bool, dead: bool, evs: Seq<bool>) -> (bool, bool)
    decreases evs.len(),
{
    if evs.len() == 0 {
        (heartbeat, dead)
    } else {
        let next = if evs[0] {
            (true, dead)
        } else {
            liveness_check(heartbeat, dead)
        };
        liveness_run(next.0, next.1, evs.drop_first())
    }
}

/// A dead session stays dead, whatever it hears afterwards.
pub proof fn lemma_dead_stays_dead(heartbeat: bool, evs: Seq<bool>)
    ensures
        liveness_run(heartbeat, true, evs).1,
    decreases evs.len(),
{
    if evs.len() > 0 {
        let next = if evs[0] {
            (true, true)
        } else {
            liveness_check(heartbeat, true)
        };
        lemma_dead_stays_dead(next.0, evs.drop_first());
    }
}

/// Every check of the run comes right after a packet heard (the first may instead find
/// the heartbeat `heartbeat` set).
pub open spec fn heard_before_checks(heartbeat: bool, evs: Seq<bool>) -> bool {
    forall|i: int|
        0 <= i < evs.len() && !(#[trigger] evs[i]) ==> if i == 0 {
            heartbeat
        } else {
            evs[i - 1]
        }
}

/// A live session that hears a packet between every two checks never dies.
pub proof fn lemma_heard_session_lives(heartbeat: bool, evs: Seq<bool>)
    requires
        heard_before_checks(heartbeat, evs),
    ensures
        !liveness_run(heartbeat, false, evs).1,
    decreases evs.len(),
{
    if evs.len() > 0 {
        let rest = evs.drop_first();
        let next = if evs[0] {
            (true, false)
        } else {
            liveness_check(heartbeat, false)
        };
        assert(!evs[0] ==> heartbeat);
        assert forall|i: int| 0 <= i < rest.len() && !(#[trigger] rest[i]) implies if i == 0 {
            next.0
        } else {
            rest[i - 1]
        } by {
            assert(rest[i] == evs[i + 1]);
            if i > 0 {
                assert(rest[i - 1] == evs[i]);
            }
        }
        lemma_heard_session_lives(next.0, rest);
    }
}

/// The payloads that a decrypted plaintext delivers: its payload when it decodes as one,
/// nothing otherwise.
pub open spec fn payload_seq(plain: Seq<u8>) -> Seq<Seq<u8>> {
    match parse_message(plain) {
        Some(MessageView::Payload(d)) => seq![d],
        _ => Seq::empty(),
    }
}

/// An established session: its transport, the payloads received and not yet taken, and
/// its liveness (a heartbeat flag that every incoming packet sets and every check clears).
pub struct Session {
    id: SessionId,
    remote_addr: PeerAddr,
    transport: LossyTransportState,
    inbox: VecDeque<Vec<u8>>,
    heartbeat: bool,
    dead: bool,
}

impl Session {
    pub closed spec fn spec_id(&self) -> SessionId {
        self.id
    }

    pub closed spec fn spec_remote_addr(&self) -> PeerAddr {
        self.remote_addr
    }

    pub closed spec fn spec_transport(&self) -> LossyTransportState {
        self.transport
    }

    /// The payloads received and not yet taken, oldest first.
    pub closed spec fn spec_inbox(&self) -> Seq<Seq<u8>> {
        self.inbox@.map_values(|v: Vec<u8>| v@)
    }

    pub closed spec fn spec_heartbeat(&self) -> bool {
        self.heartbeat
    }

    pub closed spec fn spec_dead(&self) -> bool {
        self.dead
    }

    /// Just established: nothing received, alive, and a fresh transport.
    pub open spec fn spec_fresh(&self) -> bool {
        &&& self.spec_inbox().len() == 0
        &&& !self.spec_dead()
        &&& self.spec_heartbeat()
        &&& fresh_transport(self.spec_transport())
    }

    pub fn new(id: SessionId, remote_addr: PeerAddr, transport: LossyTransportState) -> (s:
        Session)
        ensures
            s.spec_id() == id,
            s.spec_remote_addr() == remote_addr,
            s.spec_transport() == transport,
            s.spec_inbox().len() == 0,
            !s.spec_dead(),
            s.spec_heartbeat(),
    {
        let s = Session {
            id,
            remote_addr,
            transport,
            inbox: VecDeque::new(),
            heartbeat: true,
            dead: false,
        };
        assert(s.spec_inbox() =~= Seq::<Seq<u8>>::empty());
        s
    }

    /// The encrypted keepalive to send at each tick, or `None` when encryption fails.
    pub fn keepalive(&mut self) -> (r: Option<Vec<u8>>)
        requires
            old(self).spec_transport().wf(),
        ensures
            final(self).spec_transport().wf(),
            final(self).spec_id() == old(self).spec_id(),
            final(self).spec_remote_addr() == old(self).spec_remote_addr(),
            final(self).spec_inbox() == old(self).spec_inbox(),
            final(self).spec_dead() == old(self).spec_dead(),
            final(self).spec_heartbeat() == old(self).spec_heartbeat(),
            final(self).spec_transport().window() == old(self).spec_transport().window(),
            final(self).spec_transport().spec_size() == old(self).spec_transport().spec_size(),
            final(self).spec_transport().spec_next_nonce() == next_after_send(
                old(self).spec_transport().spec_next_nonce(),
            ),
            old(self).spec_transport().spec_next_nonce() == u64::MAX ==> r is None,
            r is Some ==> final(self).spec_transport().spec_sealed() == old(
                self,
            ).spec_transport().spec_sealed().push(encode_message(MessageView::Keepalive)),
            r is None ==> final(self).spec_transport().spec_sealed() == old(
                self,
            ).spec_transport().spec_sealed(),
            r matches Some(b) ==> exists|frame: Seq<u8>|
                {
                    &&& b@ == packet_bytes(old(self).spec_id(), RawMessageView::Encrypted(frame))
                    &&& parse_nonced(frame) matches Some((nonce, ct)) && nonce == old(self).spec_transport().spec_next_nonce() && ct.len() == encode_message(
                        MessageView::Keepalive,
                    ).len() + 16
                },
    {
        let m = Message::Keepalive.encode();
        self.encrypted_packet(m.as_slice())
    }

    /// Encrypts `plain` and wraps it in a datagram of this session.
    fn encrypted_packet(&mut self, plain: &[u8]) -> (r: Option<Vec<u8>>)
        requires
            old(self).spec_transport().wf(),
        ensures
            final(self).spec_transport().wf(),
            final(self).spec_id() == old(self).spec_id(),
            final(self).spec_remote_addr() == old(self).spec_remote_addr(),
            final(self).spec_inbox() == old(self).spec_inbox(),
            final(self).spec_dead() == old(self).spec_dead(),
            final(self).spec_heartbeat() == old(self).spec_heartbeat(),
            final(self).spec_transport().window() == old(self).spec_transport().window(),
            final(self).spec_transport().spec_size() == old(self).spec_transport().spec_size(),
            final(self).spec_transport().spec_next_nonce() == next_after_send(
                old(self).spec_transport().spec_next_nonce(),
            ),
            old(self).spec_transport().spec_next_nonce() == u64::MAX ==> r is None,
            plain@.len() + 16 > 65535 ==> r is None,
            r is Some ==> final(self).spec_transport().spec_sealed() == old(
                self,
            ).spec_transport().spec_sealed().push(plain@),
            r is None ==> final(self).spec_transport().spec_sealed() == old(
                self,
            ).spec_transport().spec_sealed(),
            r matches Some(b) ==> exists|frame: Seq<u8>|
                {
                    &&& b@ == packet_bytes(old(self).spec_id(), RawMessageView::Encrypted(frame))
                    &&& parse_nonced(frame) matches Some((nonce, ct)) && nonce == old(self).spec_transport().spec_next_nonce() && ct.len() == plain@.len() + 16
                },
    {
        match self.transport.write_message(plain) {
            Ok(frame) => {
                let ghost f = frame@;
                let bytes = make_packet(self.id, &RawMessage::Encrypted(frame));
                assert(bytes@ == packet_bytes(old(self).spec_id(), RawMessageView::Encrypted(f)));
                Some(bytes)
            },
            Err(_) => None,
        }
    }

    /// One liveness check: a session whose heartbeat is clear dies; otherwise the
    /// heartbeat is cleared. Says whether the session is still alive.
    pub fn check_alive(&mut self) -> (alive: bool)
        ensures
            (final(self).spec_heartbeat(), final(self).spec_dead()) == liveness_check(
                old(self).spec_heartbeat(),
                old(self).spec_dead(),
            ),
            alive == old(self).spec_heartbeat(),
            final(self).spec_id() == old(self).spec_id(),
            final(self).spec_remote_addr() == old(self).spec_remote_addr(),
            final(self).spec_inbox() == old(self).spec_inbox(),
            final(self).spec_transport() == old(self).spec_transport(),
    {
        if !self.heartbeat {
            self.dead = true;
            false
        } else {
            self.heartbeat = false;
            true
        }
    }

    /// An incoming datagram of this session: it sets the heartbeat, and an encrypted
    /// payload that decrypts is queued. Anything that does not decode or decrypt is
    /// ignored; so is a replayed message, which the nonce window refuses: it is dropped
    /// rather than treated as a fault, and is never queued twice.
    pub fn handle_incoming(&mut self, packet: &SessionPacket)
        requires
            old(self).spec_transport().wf(),
        ensures
            final(self).spec_transport().wf(),
            final(self).spec_heartbeat(),
            final(self).spec_dead() == old(self).spec_dead(),
            final(self).spec_id() == old(self).spec_id(),
            final(self).spec_remote_addr() == old(self).spec_remote_addr(),
            final(self).spec_transport().spec_next_nonce() == old(self).spec_transport().spec_next_nonce(),
            final(self).spec_transport().spec_size() == old(self).spec_transport().spec_size(),
            final(self).spec_transport().spec_sealed() == old(self).spec_transport().spec_sealed(),
            final(self).spec_transport().spec_opened() == old(self).spec_transport().spec_opened()
                && final(self).spec_inbox() == old(self).spec_inbox() || exists|plain: Seq<u8>|
                #![trigger parse_message(plain)]
                fits_frame(packet.data@, old(self).spec_transport().window(), plain)
                    && final(self).spec_transport().spec_opened() == old(
                    self,
                ).spec_transport().spec_opened().push(plain) && final(self).spec_inbox() == old(
                    self,
                ).spec_inbox() + payload_seq(plain),
            match parse_raw(packet.data@) {
                Some(RawMessageView::Encrypted(e)) => match parse_nonced(e) {
                    Some((nonce, _)) => {
                        &&& final(self).spec_transport().window() == if window_rejects(
                            old(self).spec_transport().window(),
                            nonce,
                        ) {
                            old(self).spec_transport().window()
                        } else {
                            window_after(
                                old(self).spec_transport().window(),
                                nonce,
                                old(self).spec_transport().spec_size(),
                            )
                        }
                        &&& window_rejects(old(self).spec_transport().window(), nonce) ==> final(self).spec_inbox() == old(self).spec_inbox()
                    },
                    None => final(self).spec_inbox() == old(self).spec_inbox() && final(self).spec_transport() == old(self).spec_transport(),
                },
                _ => final(self).spec_inbox() == old(self).spec_inbox() && final(self).spec_transport() == old(self).spec_transport(),
            },
    {
        self.heartbeat = true;
        if let Some(RawMessage::Encrypted(encrypted)) = RawMessage::decode(packet.data.as_slice()) {
            if crate::snow_types::Nonced::decode(encrypted.as_slice()).is_some() {
                let ghost w = self.transport.window();
                if let Ok(plain) = self.transport.read_message(encrypted.as_slice()) {
                    assert(fits_frame(packet.data@, w, plain@));
                    self.queue_plaintext(plain.as_slice());
                }
            }
        }
    }

    /// Queues the payload of a decrypted message; a keepalive, or anything that does not
    /// decode, queues nothing.
    fn queue_plaintext(&mut self, plain: &[u8])
        ensures
            final(self).spec_inbox() == old(self).spec_inbox() + payload_seq(plain@),
            final(self).spec_id() == old(self).spec_id(),
            final(self).spec_remote_addr() == old(self).spec_remote_addr(),
            final(self).spec_transport() == old(self).spec_transport(),
            final(self).spec_heartbeat() == old(self).spec_heartbeat(),
            final(self).spec_dead() == old(self).spec_dead(),
    {
        if let Some(Message::Payload(data)) = Message::decode(plain) {
            let ghost before = self.inbox@;
            let ghost d = data@;
            self.inbox.push_back(data);
            assert(self.spec_inbox() =~= before.map_values(|v: Vec<u8>| v@).push(d));
        }
    }

    /// Encrypts a payload for the peer. A dead session refuses; a payload that cannot be
    /// encrypted is dropped (`Ok(None)`).
    pub fn send(&mut self, data: &[u8]) -> (r: Result<Option<Vec<u8>>, VeqError>)
        requires
            old(self).spec_transport().wf(),
        ensures
            final(self).spec_transport().wf(),
            old(self).spec_dead() ==> r == Err::<Option<Vec<u8>>, VeqError>(VeqError::Disconnected)
                && *final(self) == *old(self),
            !old(self).spec_dead() ==> r is Ok,
            !old(self).spec_dead() ==> final(self).spec_transport().spec_next_nonce()
                == next_after_send(old(self).spec_transport().spec_next_nonce()),
            !old(self).spec_dead() && (old(self).spec_transport().spec_next_nonce() == u64::MAX
                || encode_message(MessageView::Payload(data@)).len() + 16 > 65535) ==> r == Ok::<
                Option<Vec<u8>>,
                VeqError,
            >(None),
            final(self).spec_transport().spec_size() == old(self).spec_transport().spec_size(),
            final(self).spec_id() == old(self).spec_id(),
            final(self).spec_remote_addr() == old(self).spec_remote_addr(),
            final(self).spec_inbox() == old(self).spec_inbox(),
            final(self).spec_dead() == old(self).spec_dead(),
            final(self).spec_heartbeat() == old(self).spec_heartbeat(),
            final(self).spec_transport().window() == old(self).spec_transport().window(),
            r matches Ok(Some(_)) ==> final(self).spec_transport().spec_sealed() == old(
                self,
            ).spec_transport().spec_sealed().push(encode_message(MessageView::Payload(data@))),
            r matches Ok(None) ==> final(self).spec_transport().spec_sealed() == old(
                self,
            ).spec_transport().spec_sealed(),
            r matches Ok(Some(b)) ==> exists|frame: Seq<u8>|
                {
                    &&& b@ == packet_bytes(old(self).spec_id(), RawMessageView::Encrypted(frame))
                    &&& parse_nonced(frame) matches Some((nonce, ct)) && nonce == old(self).spec_transport().spec_next_nonce() && ct.len() == encode_message(
                        MessageView::Payload(data@),
                    ).len() + 16
                },
    {
        if self.dead {
            return Err(VeqError::Disconnected);
        }
        let plain = Message::Payload(crate::wire::copy_range(data, 0, data.len())).encode();
        assert(data@.subrange(0, data@.len() as int) =~= data@);
        Ok(self.encrypted_packet(plain.as_slice()))
    }

    /// Takes the oldest received payload. A dead session refuses.
    pub fn try_recv(&mut self) -> (r: Result<Option<Vec<u8>>, VeqError>)
        ensures
            old(self).spec_dead() ==> r == Err::<Option<Vec<u8>>, VeqError>(VeqError::Disconnected)
                && *final(self) == *old(self),
            !old(self).spec_dead() && old(self).spec_inbox().len() == 0 ==> r == Ok::<
                Option<Vec<u8>>,
                VeqError,
            >(None) && *final(self) == *old(self),
            !old(self).spec_dead() && old(self).spec_inbox().len() > 0 ==> {
                &&& r matches Ok(Some(b)) && b@ == old(self).spec_inbox()[0]
                &&& final(self).spec_inbox() == old(self).spec_inbox().drop_first()
            },
            final(self).spec_id() == old(self).spec_id(),
            final(self).spec_remote_addr() == old(self).spec_remote_addr(),
            final(self).spec_dead() == old(self).spec_dead(),
            final(self).spec_heartbeat() == old(self).spec_heartbeat(),
            final(self).spec_transport() == old(self).spec_transport(),
    {
        if self.dead {
            return Err(VeqError::Disconnected);
        }
        if self.inbox.len() == 0 {
            return Ok(None);
        }
        let ghost before = self.inbox@;
        let r = self.inbox.pop_front();
        assert(self.spec_inbox() =~= before.map_values(|v: Vec<u8>| v@).drop_first());
        Ok(r)
    }

    /// Where this session sends to.
    pub fn remote_addr(&self) -> (r: PeerAddr)
        ensures
            r == self.spec_remote_addr(),
    {
        self.remote_addr
    }

    /// Whether the session has died.
    pub fn is_dead(&self) -> (r: bool)
        ensures
            r == self.spec_dead(),
    {
        self.dead
    }
}

} // verus!
