//! Punching a hole for a session: the handshake of the alternative layout as a sequence of
//! typed states.
pub mod punching;
