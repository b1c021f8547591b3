//! The handshake of the alternative layout: an initiator that writes its initiation once
//! and repeats it, a responder that answers it, and the transports they end with.
use crate::snow_types::{
    lift, snow_build_initiator, snow_build_responder, snow_handshake_read, snow_handshake_write,
    snow_into_transport, HandshakeSetup, SnowError, SnowKeypair, SnowPublicKey, NOISE_PARAMS,
};
use vstd::prelude::*;

verus! {

/// The initiator's handshake message.
#[derive(Clone)]
pub struct HandshakeInitiation(pub Vec<u8>);

/// The responder's handshake message.
#[derive(Clone)]
pub struct HandshakeResponse(pub Vec<u8>);

/// The setup of a handshake for our keypair and the peer's public key, in a role.
pub open spec fn setup_for(initiator: bool, keypair: SnowKeypair, remote: SnowPublicKey) -> HandshakeSetup {
    HandshakeSetup { initiator, params: NOISE_PARAMS@, local: keypair.1@, remote: remote@ }
}

/// The initiating side of a handshake, with its initiation once it has written one.
pub struct SnowInitiator(snow::HandshakeState, Option<HandshakeInitiation>, Ghost<HandshakeSetup>);

/// The responding side of a handshake.
pub struct SnowResponder(snow::HandshakeState, Ghost<HandshakeSetup>);

impl SnowInitiator {
    /// The initiation written so far, if any.
    pub closed spec fn spec_cached(&self) -> Option<Seq<u8>> {
        match self.1 {
            Some(i) => Some(i.0@),
            None => None,
        }
    }

    /// How the handshake state was set up.
    pub closed spec fn spec_setup(&self) -> HandshakeSetup {
        self.2@
    }

    /// An initiator for a handshake with the peer whose static public key is
    /// `remote_public_key`; nothing is written yet. Keys longer than the crypto library
    /// takes are refused.
    pub fn new(keypair: &SnowKeypair, remote_public_key: &SnowPublicKey) -> (r: Result<
        SnowInitiator,
        SnowError,
    >)
        ensures
            r is Ok <==> keypair.1@.len() <= 32 && remote_public_key@.len() <= 56,
            r is Err ==> r == Err::<SnowInitiator, SnowError>(SnowError::Input),
            r matches Ok(i) ==> i.spec_cached() is None && i.spec_setup() == setup_for(
                true,
                *keypair,
                *remote_public_key,
            ),
    {
        if keypair.1.0.len() > 32 || remote_public_key.0.len() > 56 {
            return Err(SnowError::Input);
        }
        match lift(
            snow_build_initiator(NOISE_PARAMS, keypair.1.0.as_slice(), remote_public_key.0.as_slice()),
        ) {
            Ok((state, setup)) => Ok(SnowInitiator(state, None, setup)),
            Err(e) => Err(e),
        }
    }

    /// The initiation: written on the first call, and the same bytes on every later call.
    pub fn initiation(&mut self) -> (r: Result<HandshakeInitiation, SnowError>)
        ensures
            final(self).spec_setup() == old(self).spec_setup(),
            old(self).spec_cached() matches Some(i) ==> (r matches Ok(m) && m.0@ == i)
                && final(self).spec_cached() == old(self).spec_cached(),
            r matches Ok(m) ==> final(self).spec_cached() == Some(m.0@),
            old(self).spec_cached() is None ==> (r matches Ok(m) ==> m.0@.len() <= 65535),
            r is Err ==> final(self).spec_cached() == old(self).spec_cached(),
    {
        match &self.1 {
            Some(i) => {
                let copy = crate::wire::copy_range(i.0.as_slice(), 0, i.0.len());
                assert(copy@ =~= i.0@);
                return Ok(HandshakeInitiation(copy));
            },
            None => {},
        }
        match HandshakeInitiation::new(self) {
            Ok(m) => {
                let copy = HandshakeInitiation(crate::wire::copy_range(m.0.as_slice(), 0, m.0.len()));
                self.1 = Some(m);
                assert(copy.0@ =~= self.spec_cached().unwrap());
                Ok(copy)
            },
            Err(e) => Err(e),
        }
    }
}

impl SnowResponder {
    /// How the handshake state was set up.
    pub closed spec fn spec_setup(&self) -> HandshakeSetup {
        self.1@
    }

    /// A responder for a handshake with the peer whose static public key is
    /// `remote_public_key`. Keys longer than the crypto library takes are refused.
    pub fn new(keypair: &SnowKeypair, remote_public_key: &SnowPublicKey) -> (r: Result<
        SnowResponder,
        SnowError,
    >)
        ensures
            r is Ok <==> keypair.1@.len() <= 32 && remote_public_key@.len() <= 56,
            r is Err ==> r == Err::<SnowResponder, SnowError>(SnowError::Input),
            r matches Ok(resp) ==> resp.spec_setup() == setup_for(false, *keypair, *remote_public_key),
    {
        if keypair.1.0.len() > 32 || remote_public_key.0.len() > 56 {
            return Err(SnowError::Input);
        }
        match lift(
            snow_build_responder(NOISE_PARAMS, keypair.1.0.as_slice(), remote_public_key.0.as_slice()),
        ) {
            Ok((state, setup)) => Ok(SnowResponder(state, setup)),
            Err(e) => Err(e),
        }
    }
}

impl HandshakeInitiation {
    /// Writes the initiator's handshake message (it does not remember it).
    pub fn new(initiator: &mut SnowInitiator) -> (r: Result<HandshakeInitiation, SnowError>)
        ensures
            final(initiator).spec_setup() == old(initiator).spec_setup(),
            final(initiator).spec_cached() == old(initiator).spec_cached(),
            r matches Ok(m) ==> m.0@.len() <= 65535,
    {
        let empty: Vec<u8> = Vec::new();
        match lift(snow_handshake_write(&mut initiator.0, empty.as_slice())) {
            Ok(m) => Ok(HandshakeInitiation(m)),
            Err(e) => Err(e),
        }
    }

    /// Answers this initiation: the responder reads it and writes its response, and the
    /// handshake is complete on its side. A failure of the crypto library is passed on.
    pub fn respond(self, responder: SnowResponder) -> (r: Result<
        (snow::TransportState, HandshakeResponse),
        SnowError,
    >)
        ensures
            r matches Ok((_, resp)) ==> resp.0@.len() <= 65535,
    {
        let mut state = responder.0;
        match lift(snow_handshake_read(&mut state, self.0.as_slice())) {
            Ok(_) => {},
            Err(e) => return Err(e),
        }
        let empty: Vec<u8> = Vec::new();
        let message = match lift(snow_handshake_write(&mut state, empty.as_slice())) {
            Ok(m) => m,
            Err(e) => return Err(e),
        };
        match lift(snow_into_transport(state)) {
            Ok(t) => Ok((t, HandshakeResponse(message))),
            Err(e) => Err(e),
        }
    }
}

impl HandshakeResponse {
    /// The message's bytes.
    pub fn to_vec(self) -> (r: Vec<u8>)
        ensures
            r@ == self.0@,
    {
        self.0
    }

    /// Completes the initiator's handshake with this response. A failure of the crypto
    /// library is passed on.
    pub fn transport(self, initiator: SnowInitiator) -> (r: Result<snow::TransportState, SnowError>) {
        let mut state = initiator.0;
        match lift(snow_handshake_read(&mut state, self.0.as_slice())) {
            Ok(_) => {},
            Err(e) => return Err(e),
        }
        lift(snow_into_transport(state))
    }
}

} // verus!
