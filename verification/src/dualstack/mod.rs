//! Sockets that may be bound for IPv4, IPv6 or both.
pub mod maybe_dual;
