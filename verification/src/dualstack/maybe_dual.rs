//! Access to the per-family sockets of a socket that may be dual-stack.
use vstd::prelude::*;

verus! {

/// A socket that may hold an IPv4 socket, an IPv6 socket, or both.
pub trait MaybeDual {
    type SocketT;

    /// The IPv4 socket, if there is one.
    fn v4(&self) -> Option<&Self::SocketT>;

    /// The IPv6 socket, if there is one.
    fn v6(&self) -> Option<&Self::SocketT>;
}

} // verus!
