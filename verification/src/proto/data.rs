//! Session packets of the alternative layout, and messages encrypted with a counting
//! transport.
use crate::proto::handshake::{HandshakeInitiation, HandshakeResponse};
use crate::snow_types::{lift, snow_transport_read, snow_transport_write, SnowError};
use vstd::prelude::*;

verus! {

/// A packet: the session it belongs to and what it carries.
pub struct SessionPacket {
    session_id: u128,
    payload: Payload,
}

impl SessionPacket {
    pub closed spec fn spec_session_id(&self) -> u128 {
        self.session_id
    }

    /// What the packet carries.
    pub closed spec fn spec_payload(&self) -> Payload {
        self.payload
    }

    pub fn new(session_id: u128, payload: Payload) -> (p: SessionPacket)
        ensures
            p.spec_session_id() == session_id,
            p.spec_payload() == payload,
    {
        SessionPacket { session_id, payload }
    }

    pub fn session_id(&self) -> (r: u128)
        ensures
            r == self.spec_session_id(),
    {
        self.session_id
    }

    pub fn payload(&self) -> (r: &Payload)
        ensures
            *r == self.spec_payload(),
    {
        &self.payload
    }
}

/// A message as it travels: encrypted.
pub struct EncryptedMessage(pub Vec<u8>);

/// A message in the clear.
#[derive(Clone, Debug, PartialEq)]
pub struct Message(pub Vec<u8>);

impl Message {
    pub fn new(data: Vec<u8>) -> (m: Message)
        ensures
            m.0@ == data@,
    {
        Message(data)
    }
}

impl EncryptedMessage {
    /// Encrypts `message` under the transport's next nonce: the ciphertext and a 16-byte
    /// tag. A message too large for one Noise message is refused.
    pub fn encrypt(transport: &mut snow::TransportState, message: Message) -> (r: Result<
        EncryptedMessage,
        SnowError,
    >)
        ensures
            r matches Ok(e) ==> e.0@.len() == message.0@.len() + 16,
            message.0@.len() + 16 > 65535 ==> r is Err,
    {
        match lift(snow_transport_write(transport, message.0.as_slice())) {
            Ok(c) => Ok(EncryptedMessage(c)),
            Err(e) => Err(e),
        }
    }

    /// Decrypts under the transport's next receiving nonce.
    pub fn decrypt(&self, transport: &mut snow::TransportState) -> (r: Result<Message, SnowError>)
        ensures
            r matches Ok(m) ==> m.0@.len() + 16 == self.0@.len(),
            self.0@.len() < 16 ==> r is Err,
    {
        match lift(snow_transport_read(transport, self.0.as_slice())) {
            Ok(p) => Ok(Message(p)),
            Err(e) => Err(e),
        }
    }
}

/// What a packet carries.
pub enum Payload {
    HandshakeInitiation(HandshakeInitiation),
    HandshakeResponse(HandshakeResponse),
    EncryptedMessage(EncryptedMessage),
}

} // verus!
