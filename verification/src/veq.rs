//! What two peers exchange before they connect, and the errors a session reports.
use crate::snow_types::{lemma_lex_less_total, lex_less, SnowPublicKey};
use vstd::prelude::*;

verus! {

/// A UDP endpoint: an IPv4 address and port, or an IPv6 address, port, flow label and
/// scope.
#[derive(Clone, Copy, Debug, PartialEq, Eq, Hash, Structural)]
pub enum PeerAddr {
    V4 { ip: u32, port: u16 },
    V6 { ip: u128, port: u16, flowinfo: u32, scope_id: u32 },
}

impl PeerAddr {
    /// The unspecified address (`0.0.0.0` or `::`), which no peer can be reached at.
    pub open spec fn spec_is_unspecified(self) -> bool {
        match self {
            PeerAddr::V4 { ip, .. } => ip == 0,
            PeerAddr::V6 { ip, .. } => ip == 0,
        }
    }

    /// The port.
    pub open spec fn spec_port(self) -> u16 {
        match self {
            PeerAddr::V4 { port, .. } => port,
            PeerAddr::V6 { port, .. } => port,
        }
    }

    /// Whether this is the unspecified address.
    pub fn is_unspecified(&self) -> (r: bool)
        ensures
            r == self.spec_is_unspecified(),
    {
        match self {
            PeerAddr::V4 { ip, .. } => *ip == 0,
            PeerAddr::V6 { ip, .. } => *ip == 0,
        }
    }

    /// The same address with port `port`.
    pub open spec fn spec_with_port(self, port: u16) -> PeerAddr {
        match self {
            PeerAddr::V4 { ip, .. } => PeerAddr::V4 { ip, port },
            PeerAddr::V6 { ip, flowinfo, scope_id, .. } => PeerAddr::V6 { ip, port, flowinfo, scope_id },
        }
    }

    /// The same address with another port.
    pub fn with_port(&self, port: u16) -> (r: PeerAddr)
        ensures
            r == self.spec_with_port(port),
            r.spec_port() == port,
            r.spec_is_unspecified() == self.spec_is_unspecified(),
            match (r, *self) {
                (PeerAddr::V4 { ip: a, .. }, PeerAddr::V4 { ip: b, .. }) => a == b,
                (
                    PeerAddr::V6 { ip: a, flowinfo: f, scope_id: s, .. },
                    PeerAddr::V6 { ip: b, flowinfo: g, scope_id: t, .. },
                ) => a == b && f == g && s == t,
                _ => false,
            },
    {
        match *self {
            PeerAddr::V4 { ip, .. } => PeerAddr::V4 { ip, port },
            PeerAddr::V6 { ip, flowinfo, scope_id, .. } => PeerAddr::V6 {
                ip,
                port,
                flowinfo,
                scope_id,
            },
        }
    }
}

/// No address occurs twice.
pub open spec fn no_duplicates(s: Seq<PeerAddr>) -> bool {
    forall|i: int, j: int| 0 <= i < j < s.len() ==> s[i] != s[j]
}

/// `r` holds the addresses of `s`, each once; where `s` repeats none, `r` is `s`.
pub open spec fn distinct_of(r: Seq<PeerAddr>, s: Seq<PeerAddr>) -> bool {
    &&& no_duplicates(r)
    &&& forall|a: PeerAddr| #[trigger] r.contains(a) <==> s.contains(a)
    &&& no_duplicates(s) ==> r == s
}

/// Whether `a` occurs in `s`.
fn occurs_in(s: &Vec<PeerAddr>, a: &PeerAddr) -> (r: bool)
    ensures
        r == s@.contains(*a),
{
    let mut i: usize = 0;
    while i < s.len()
        invariant
            i <= s@.len(),
            forall|j: int| 0 <= j < i ==> s@[j] != *a,
        decreases s@.len() - i,
    {
        if s[i] == *a {
            assert(s@[i as int] == *a);
            return true;
        }
        i = i + 1;
    }
    false
}

/// The addresses of `s`, each once, in the order of their first occurrence.
pub fn distinct_addresses(s: &Vec<PeerAddr>) -> (r: Vec<PeerAddr>)
    ensures
        distinct_of(r@, s@),
{
    let mut out: Vec<PeerAddr> = Vec::new();
    let mut i: usize = 0;
    assert(s@.take(0) =~= out@);
    while i < s.len()
        invariant
            i <= s@.len(),
            distinct_of(out@, s@.take(i as int)),
        decreases s@.len() - i,
    {
        let a = s[i];
        let ghost before = out@;
        let ghost t = s@.take(i as int);
        let ghost t1 = s@.take(i + 1);
        assert(t1 =~= t.push(a));
        if !occurs_in(&out, &a) {
            out.push(a);
            assert forall|x: int, y: int| 0 <= x < y < out@.len() implies out@[x] != out@[y] by {
                if y == out@.len() - 1 {
                    assert(before.contains(before[x]));
                }
            }
        }
        assert forall|b: PeerAddr| #[trigger] out@.contains(b) <==> t1.contains(b) by {
            if out@.contains(b) {
                let k = choose|k: int| 0 <= k < out@.len() && out@[k] == b;
                if k < before.len() {
                    assert(out@[k] == before[k]);
                    assert(before[k] == b);
                    assert(before.contains(b));
                    let q = choose|q: int| 0 <= q < t.len() && t[q] == b;
                    assert(t1[q] == b);
                } else {
                    assert(t1[i as int] == a);
                }
            }
            if t1.contains(b) {
                let q = choose|q: int| 0 <= q < t1.len() && t1[q] == b;
                if q < i {
                    assert(t[q] == b);
                    assert(t.contains(b));
                    assert(before.contains(b));
                    let k = choose|k: int| 0 <= k < before.len() && before[k] == b;
                    assert(out@[k] == before[k]);
                    assert(out@[k] == b);
                } else if before.contains(a) {
                    assert(b == a);
                    let k = choose|k: int| 0 <= k < before.len() && before[k] == b;
                    assert(out@[k] == before[k]);
                    assert(out@[k] == b);
                } else {
                    assert(out@[out@.len() - 1] == a);
                }
            }
        }
        proof {
            if no_duplicates(t1) {
                assert forall|x: int, y: int| 0 <= x < y < t.len() implies t[x] != t[y] by {
                    assert(t1[x] == t[x] && t1[y] == t[y]);
                }
                assert(!t.contains(a)) by {
                    if t.contains(a) {
                        let q = choose|q: int| 0 <= q < t.len() && t[q] == a;
                        assert(t1[q] == t1[i as int]);
                    }
                }
                assert(out@ =~= t1);
            }
        }
        i = i + 1;
    }
    assert(s@.take(i as int) =~= s@);
    out
}

/// Where a peer may be reached, and its static public key.
#[derive(Clone, Debug)]
pub struct ConnectionInfo {
    pub addresses: Vec<PeerAddr>,
    pub public_key: SnowPublicKey,
}

impl ConnectionInfo {
    /// Whether this side starts the handshake with the peer `other`: the side whose public
    /// key comes first in lexicographic order initiates.
    pub fn is_initiator(&self, other: &ConnectionInfo) -> (r: bool)
        ensures
            r == lex_less(self.public_key@, other.public_key@),
    {
        self.public_key.is_less_than(&other.public_key)
    }
}

/// Two peers with different public keys agree on who starts the handshake: exactly one
/// of them initiates.
pub proof fn lemma_exactly_one_initiator(a: ConnectionInfo, b: ConnectionInfo)
    requires
        a.public_key@ != b.public_key@,
    ensures
        lex_less(a.public_key@, b.public_key@) != lex_less(b.public_key@, a.public_key@),
{
    lemma_lex_less_total(a.public_key@, b.public_key@);
}

/// Why a session cannot be used.
#[derive(Debug, Clone, Copy, PartialEq, Eq, Structural)]
pub enum VeqError {
    /// The session is closed, dead or unknown.
    Disconnected,
}

impl VeqError {
    /// The message shown for this error.
    pub fn message(&self) -> (r: &'static str)
        ensures
            r@ == match self {
                VeqError::Disconnected => "Session disconnected"@,
            },
    {
        match self {
            VeqError::Disconnected => "Session disconnected",
        }
    }
}

} // verus!
