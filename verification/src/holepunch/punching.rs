//! The states of a hole punch, one type each: an initiator waiting for the response, a
//! waiting side, a side that has answered and waits for the keepalive, and a punched hole
//! that holds the session. Each move consumes the state it starts from.
use crate::proto::handshake::{HandshakeInitiation, HandshakeResponse, SnowInitiator, SnowResponder};
use crate::proto::session::{Session, SessionInitiator};
use crate::snow_types::{SnowError, SnowKeypair, SnowPublicKey};
use vstd::prelude::*;

verus! {

/// The message that tells the answering side that its response got through.
pub struct HolepunchKeepalive;

/// Initiating: the handshake's initiator and its initiation.
pub struct Initiating(SessionInitiator<SnowInitiator>, HandshakeInitiation);

/// Waiting for an initiation.
pub struct Waiting(SessionInitiator<SnowResponder>);

/// Answered: the session, and the response to repeat until the keepalive arrives.
pub struct Responding(Session, HandshakeResponse);

/// Punched: the session.
pub struct Punched(Session);

impl Punched {
    /// The session of the punched hole.
    pub closed spec fn spec_session(&self) -> Session {
        self.0
    }
}

impl Initiating {
    /// The initiation this side repeats.
    pub closed spec fn spec_initiation(&self) -> Seq<u8> {
        self.1.0@
    }

    /// Starts a handshake with `keypair` towards the peer whose static public key is
    /// `remote_public_key`, and writes the initiation.
    pub fn new(keypair: SnowKeypair, remote_public_key: &SnowPublicKey) -> (r: Result<Initiating, SnowError>)
        ensures
            keypair.1@.len() > 32 || remote_public_key@.len() > 56 ==> r is Err,
    {
        let mut initiator = match SessionInitiator::<SnowInitiator>::from_keypair(keypair, remote_public_key) {
            Ok(i) => i,
            Err(e) => return Err(e),
        };
        match initiator.initiation() {
            Ok(initiation) => Ok(Initiating(initiator, initiation)),
            Err(e) => Err(e),
        }
    }

    /// Completes the handshake with the response.
    pub fn receive_response(self, response: HandshakeResponse) -> (r: Result<Punched, SnowError>)
        ensures
            r matches Ok(p) ==> p.spec_session().spec_inbox().len() == 0,
    {
        match self.0.receive_response(response) {
            Ok(session) => Ok(Punched(session)),
            Err(e) => Err(e),
        }
    }

    /// The initiation to send.
    pub fn initiation(&self) -> (r: HandshakeInitiation)
        ensures
            r.0@ == self.spec_initiation(),
    {
        let copy = crate::wire::copy_range(self.1.0.as_slice(), 0, self.1.0.len());
        assert(copy@ =~= self.1.0@);
        HandshakeInitiation(copy)
    }
}

impl Waiting {
    /// Waits, with `keypair`, for the peer whose static public key is `remote_public_key`.
    pub fn new(keypair: SnowKeypair, remote_public_key: &SnowPublicKey) -> (r: Result<Waiting, SnowError>)
        ensures
            r is Ok <==> keypair.1@.len() <= 32 && remote_public_key@.len() <= 56,
    {
        match SessionInitiator::<SnowResponder>::from_keypair(keypair, remote_public_key) {
            Ok(s) => Ok(Waiting(s)),
            Err(e) => Err(e),
        }
    }

    /// Answers the initiation.
    pub fn receive_initiation(self, initiation: HandshakeInitiation) -> (r: Result<Responding, SnowError>)
        ensures
            r matches Ok(resp) ==> resp.spec_session().spec_inbox().len() == 0,
    {
        match self.0.receive_initiation(initiation) {
            Ok((session, response)) => Ok(Responding(session, response)),
            Err(e) => Err(e),
        }
    }
}

impl Responding {
    /// The response this side repeats.
    pub closed spec fn spec_response(&self) -> Seq<u8> {
        self.1.0@
    }

    /// The session of the handshake.
    pub closed spec fn spec_session(&self) -> Session {
        self.0
    }

    /// The keepalive shows the response got through: the hole is punched.
    pub fn receive_keepalive(self, _keepalive: HolepunchKeepalive) -> (r: Punched)
        ensures
            r.spec_session() == self.spec_session(),
    {
        Punched(self.0)
    }
}

/// A hole punch in state `State`.
pub struct Holepunching<State>(State);

impl Holepunching<Initiating> {
    /// The initiation this side repeats.
    pub closed spec fn spec_initiation(&self) -> Seq<u8> {
        self.0.spec_initiation()
    }

    /// Starts a hole punch as initiator; see [`Initiating::new`].
    pub fn new(keypair: SnowKeypair, remote_public_key: &SnowPublicKey) -> (r: Result<
        Holepunching<Initiating>,
        SnowError,
    >)
        ensures
            keypair.1@.len() > 32 || remote_public_key@.len() > 56 ==> r is Err,
    {
        match Initiating::new(keypair, remote_public_key) {
            Ok(s) => Ok(Holepunching(s)),
            Err(e) => Err(e),
        }
    }

    /// The initiation to send.
    pub fn initiation(&self) -> (r: HandshakeInitiation)
        ensures
            r.0@ == self.spec_initiation(),
    {
        self.0.initiation()
    }

    /// Completes the handshake with the response: the hole is punched.
    pub fn receive_response(self, response: HandshakeResponse) -> (r: Result<
        Holepunching<Punched>,
        SnowError,
    >)
        ensures
            r matches Ok(p) ==> p.spec_session().spec_inbox().len() == 0,
    {
        match self.0.receive_response(response) {
            Ok(p) => Ok(Holepunching(p)),
            Err(e) => Err(e),
        }
    }
}

impl Holepunching<Waiting> {
    /// Waits for an initiation; see [`Waiting::new`].
    pub fn new(keypair: SnowKeypair, remote_public_key: &SnowPublicKey) -> (r: Result<
        Holepunching<Waiting>,
        SnowError,
    >)
        ensures
            r is Ok <==> keypair.1@.len() <= 32 && remote_public_key@.len() <= 56,
    {
        match Waiting::new(keypair, remote_public_key) {
            Ok(s) => Ok(Holepunching(s)),
            Err(e) => Err(e),
        }
    }

    /// A keepalive to send.
    pub fn keepalive(&self) -> (r: HolepunchKeepalive) {
        HolepunchKeepalive
    }

    /// Answers the initiation.
    pub fn receive_initiation(self, initiation: HandshakeInitiation) -> (r: Result<
        Holepunching<Responding>,
        SnowError,
    >)
        ensures
            r matches Ok(resp) ==> resp.spec_session().spec_inbox().len() == 0,
    {
        match self.0.receive_initiation(initiation) {
            Ok(s) => Ok(Holepunching(s)),
            Err(e) => Err(e),
        }
    }
}

impl Holepunching<Responding> {
    /// The response this side repeats.
    pub closed spec fn spec_response(&self) -> Seq<u8> {
        self.0.spec_response()
    }

    /// The session of the handshake.
    pub closed spec fn spec_session(&self) -> Session {
        self.0.spec_session()
    }

    /// The response to send.
    pub fn response(&self) -> (r: HandshakeResponse)
        ensures
            r.0@ == self.spec_response(),
    {
        let copy = crate::wire::copy_range(self.0.1.0.as_slice(), 0, self.0.1.0.len());
        assert(copy@ =~= self.0.1.0@);
        HandshakeResponse(copy)
    }

    /// The keepalive arrived: the hole is punched, with the session of the handshake.
    pub fn receive_keepalive(self, keepalive: HolepunchKeepalive) -> (r: Holepunching<Punched>)
        ensures
            r.spec_session() == self.spec_session(),
    {
        Holepunching(self.0.receive_keepalive(keepalive))
    }
}

impl Holepunching<Punched> {
    /// The session of the punched hole.
    pub closed spec fn spec_session(&self) -> Session {
        self.0.spec_session()
    }

    /// A keepalive to send.
    pub fn keepalive(&self) -> (r: HolepunchKeepalive) {
        HolepunchKeepalive
    }

    /// The session.
    pub fn into_session(self) -> (r: Session)
        ensures
            r == self.spec_session(),
    {
        self.0.0
    }
}

} // verus!
