//! Sessions of the alternative layout: the two roles of the handshake, and an established
//! session that encrypts messages and queues the ones it receives.
//!
//! Unlike a panic on a message that does not decrypt (a replay among them), such a message
//! is refused here with an error and nothing is queued.
use crate::proto::data::{EncryptedMessage, Message};
use crate::proto::handshake::{
    setup_for, HandshakeInitiation, HandshakeResponse, SnowInitiator, SnowResponder,
};
use crate::snow_types::{SnowError, SnowKeypair, SnowPublicKey};
use std::collections::VecDeque;
use vstd::prelude::*;

verus! {

/// Where a session of this layout stands.
#[derive(PartialEq, Eq, Structural)]
pub enum SessionState {
    Initiator,
    Responder,
    Connected,
    Closed,
}

/// One side of a handshake that has not completed yet, with its keypair; `State` is the
/// side's handshake role.
pub struct SessionInitiator<State> {
    keypair: SnowKeypair,
    state: State,
}

impl SessionInitiator<SnowInitiator> {
    /// The initiating side's handshake.
    pub closed spec fn spec_state(&self) -> SnowInitiator {
        self.state
    }

    /// An initiator with a fresh keypair, for the peer whose static public key is
    /// `remote_public_key`.
    pub fn new(remote_public_key: &SnowPublicKey) -> (r: Result<SessionInitiator<SnowInitiator>, SnowError>)
        ensures
            r is Ok <==> remote_public_key@.len() <= 56,
            r matches Ok(s) ==> s.spec_state().spec_cached() is None
                && s.spec_state().spec_setup().initiator && s.spec_state().spec_setup().remote
                == remote_public_key@,
    {
        let keypair = match SnowKeypair::new() {
            Ok(k) => k,
            Err(e) => return Err(e),
        };
        Self::from_keypair(keypair, remote_public_key)
    }

    /// An initiator with `keypair`, for the peer whose static public key is
    /// `remote_public_key`.
    pub fn from_keypair(keypair: SnowKeypair, remote_public_key: &SnowPublicKey) -> (r: Result<
        SessionInitiator<SnowInitiator>,
        SnowError,
    >)
        ensures
            r is Ok <==> keypair.1@.len() <= 32 && remote_public_key@.len() <= 56,
            r matches Ok(s) ==> s.spec_state().spec_cached() is None && s.spec_state().spec_setup()
                == setup_for(true, keypair, *remote_public_key),
    {
        match SnowInitiator::new(&keypair, remote_public_key) {
            Ok(state) => Ok(SessionInitiator { keypair, state }),
            Err(e) => Err(e),
        }
    }

    /// The initiation, written once and repeated as it is.
    pub fn initiation(&mut self) -> (r: Result<HandshakeInitiation, SnowError>)
        ensures
            final(self).spec_state().spec_setup() == old(self).spec_state().spec_setup(),
            old(self).spec_state().spec_cached() matches Some(i) ==> (r matches Ok(m) && m.0@ == i)
                && final(self).spec_state().spec_cached() == old(self).spec_state().spec_cached(),
            r matches Ok(m) ==> final(self).spec_state().spec_cached() == Some(m.0@),
            r is Err ==> final(self).spec_state().spec_cached() == old(self).spec_state().spec_cached(),
    {
        self.state.initiation()
    }

    /// Completes the handshake with the responder's answer.
    pub fn receive_response(self, response: HandshakeResponse) -> (r: Result<Session, SnowError>)
        ensures
            r matches Ok(s) ==> s.spec_inbox().len() == 0,
    {
        match response.transport(self.state) {
            Ok(t) => Ok(Session::new(t)),
            Err(e) => Err(e),
        }
    }
}

impl SessionInitiator<SnowResponder> {
    /// The responding side's handshake.
    pub closed spec fn spec_state(&self) -> SnowResponder {
        self.state
    }

    /// A responder with a fresh keypair, for the peer whose static public key is
    /// `remote_public_key`.
    pub fn new(remote_public_key: &SnowPublicKey) -> (r: Result<SessionInitiator<SnowResponder>, SnowError>)
        ensures
            r is Ok <==> remote_public_key@.len() <= 56,
            r matches Ok(s) ==> !s.spec_state().spec_setup().initiator
                && s.spec_state().spec_setup().remote == remote_public_key@,
    {
        let keypair = match SnowKeypair::new() {
            Ok(k) => k,
            Err(e) => return Err(e),
        };
        Self::from_keypair(keypair, remote_public_key)
    }

    /// A responder with `keypair`, for the peer whose static public key is
    /// `remote_public_key`.
    pub fn from_keypair(keypair: SnowKeypair, remote_public_key: &SnowPublicKey) -> (r: Result<
        SessionInitiator<SnowResponder>,
        SnowError,
    >)
        ensures
            r is Ok <==> keypair.1@.len() <= 32 && remote_public_key@.len() <= 56,
            r matches Ok(s) ==> s.spec_state().spec_setup() == setup_for(
                false,
                keypair,
                *remote_public_key,
            ),
    {
        match SnowResponder::new(&keypair, remote_public_key) {
            Ok(state) => Ok(SessionInitiator { keypair, state }),
            Err(e) => Err(e),
        }
    }

    /// Answers the initiation: the session, and the response to send back.
    pub fn receive_initiation(self, initiation: HandshakeInitiation) -> (r: Result<
        (Session, HandshakeResponse),
        SnowError,
    >)
        ensures
            r matches Ok((s, resp)) ==> s.spec_inbox().len() == 0 && resp.0@.len() <= 65535,
    {
        match initiation.respond(self.state) {
            Ok((t, response)) => Ok((Session::new(t), response)),
            Err(e) => Err(e),
        }
    }
}

/// An established session: its transport and the messages received and not yet taken.
pub struct Session {
    transport: snow::TransportState,
    messages: VecDeque<Message>,
}

impl Session {
    /// The messages received and not yet taken, oldest first.
    pub closed spec fn spec_inbox(&self) -> Seq<Seq<u8>> {
        self.messages@.map_values(|m: Message| m.0@)
    }

    /// A session over `transport`, with nothing received.
    pub fn new(transport: snow::TransportState) -> (s: Session)
        ensures
            s.spec_inbox().len() == 0,
    {
        Session { transport, messages: VecDeque::new() }
    }

    /// Encrypts `message` for the peer; a message too large for one Noise message is
    /// refused.
    pub fn send(&mut self, message: Message) -> (r: Result<EncryptedMessage, SnowError>)
        ensures
            final(self).spec_inbox() == old(self).spec_inbox(),
            r matches Ok(e) ==> e.0@.len() == message.0@.len() + 16,
            message.0@.len() + 16 > 65535 ==> r is Err,
    {
        EncryptedMessage::encrypt(&mut self.transport, message)
    }

    /// Decrypts a message from the peer and queues it. A message that does not decrypt
    /// (a replay among them) is refused and nothing is queued.
    pub fn handle_incoming(&mut self, encrypted: &EncryptedMessage) -> (r: Result<(), SnowError>)
        ensures
            r is Err ==> final(self).spec_inbox() == old(self).spec_inbox(),
            r is Ok ==> exists|d: Seq<u8>|
                #![trigger old(self).spec_inbox().push(d)]
                final(self).spec_inbox() == old(self).spec_inbox().push(d) && d.len() + 16
                    == encrypted.0@.len(),
            encrypted.0@.len() < 16 ==> r is Err,
    {
        match encrypted.decrypt(&mut self.transport) {
            Ok(m) => {
                let ghost before = self.messages@;
                let ghost d = m.0@;
                self.messages.push_back(m);
                assert(self.spec_inbox() =~= before.map_values(|x: Message| x.0@).push(d));
                assert(self.spec_inbox() == old(self).spec_inbox().push(d));
                Ok(())
            },
            Err(e) => Err(e),
        }
    }

    /// Takes the oldest message received, if any.
    pub fn try_recv(&mut self) -> (r: Option<Message>)
        ensures
            old(self).spec_inbox().len() == 0 ==> r is None && final(self).spec_inbox() == old(
                self,
            ).spec_inbox(),
            old(self).spec_inbox().len() > 0 ==> (r matches Some(m) && m.0@ == old(
                self,
            ).spec_inbox()[0]) && final(self).spec_inbox() == old(self).spec_inbox().drop_first(),
    {
        let ghost before = self.messages@;
        let r = self.messages.pop_front();
        assert(self.spec_inbox() =~= before.map_values(|x: Message| x.0@).drop_first() || r is None);
        r
    }
}

} // verus!
