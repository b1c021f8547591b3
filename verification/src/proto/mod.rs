//! Message types of an alternative packet layout: a session packet carrying a handshake
//! message or an encrypted message, and the congestion reports that peers exchange.
pub mod data;
pub mod handshake;
pub mod session;
pub mod structs;
