//! A small UDP session protocol: packets carry a session identifier, sessions are
//! established with a Noise KK handshake, and large payloads are split into chunks
//! that the receiving side reassembles.
//!
//! The byte layouts of every packet are written out here as functions on bytes, each
//! with a specification and a proof that decoding gives back what encoding wrote.

pub mod wire;
pub mod transform;
pub mod snow_types;
pub mod veq;
pub mod session;
pub mod handler;
pub mod dualstack;
pub mod proto;
pub mod ip_discovery;
pub mod connection;
pub mod holepunch;
