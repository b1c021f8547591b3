//! Which addresses a socket announces to its peers.
//!
//! The addresses come from the socket itself, from the machine's network interfaces
//! and from a STUN server; reading those is left to the caller. What is decided here is
//! which candidates are announced: each address once, and never the unspecified address.
use crate::veq::{no_duplicates, PeerAddr};
use vstd::prelude::*;

verus! {

/// An IP address of a network interface.
#[derive(Clone, Copy, Debug, PartialEq, Eq, Structural)]
pub enum IpAddress {
    V4(u32),
    V6(u128),
}

/// The endpoint at `port` of an interface address.
pub open spec fn endpoint(ip: IpAddress, port: u16) -> PeerAddr {
    match ip {
        IpAddress::V4(a) => PeerAddr::V4 { ip: a, port },
        IpAddress::V6(a) => PeerAddr::V6 { ip: a, port, flowinfo: 0, scope_id: 0 },
    }
}

/// The endpoints at `port` of the interface addresses that `keep` selects, in order.
pub open spec fn endpoints(ips: Seq<IpAddress>, port: u16, v4: bool, v6: bool) -> Seq<PeerAddr>
    decreases ips.len(),
{
    if ips.len() == 0 {
        Seq::empty()
    } else {
        let rest = endpoints(ips.drop_last(), port, v4, v6);
        let ip = ips.last();
        let keep = match ip {
            IpAddress::V4(_) => v4,
            IpAddress::V6(_) => v6,
        };
        if keep {
            rest.push(endpoint(ip, port))
        } else {
            rest
        }
    }
}

fn endpoints_of(ips: &Vec<IpAddress>, port: u16, v4: bool, v6: bool) -> (r: Vec<PeerAddr>)
    ensures
        r@ == endpoints(ips@, port, v4, v6),
{
    let mut out: Vec<PeerAddr> = Vec::new();
    let mut i: usize = 0;
    while i < ips.len()
        invariant
            i <= ips@.len(),
            out@ == endpoints(ips@.take(i as int), port, v4, v6),
        decreases ips@.len() - i,
    {
        let ip = ips[i];
        assert(ips@.take(i + 1).drop_last() =~= ips@.take(i as int));
        assert(ips@.take(i + 1).last() == ip);
        match ip {
            IpAddress::V4(a) => {
                if v4 {
                    out.push(PeerAddr::V4 { ip: a, port });
                }
            },
            IpAddress::V6(a) => {
                if v6 {
                    out.push(PeerAddr::V6 { ip: a, port, flowinfo: 0, scope_id: 0 });
                }
            },
        }
        i = i + 1;
    }
    assert(ips@.take(i as int) =~= ips@);
    out
}

/// The IPv4 interface addresses, each with `port`.
pub fn local_ips_v4(interface_ips: &Vec<IpAddress>, port: u16) -> (r: Vec<PeerAddr>)
    ensures
        r@ == endpoints(interface_ips@, port, true, false),
{
    endpoints_of(interface_ips, port, true, false)
}

/// The IPv6 interface addresses, each with `port` (no flow label, no scope).
pub fn local_ips_v6(interface_ips: &Vec<IpAddress>, port: u16) -> (r: Vec<PeerAddr>)
    ensures
        r@ == endpoints(interface_ips@, port, false, true),
{
    endpoints_of(interface_ips, port, false, true)
}

/// All interface addresses, each with `port`.
pub fn local_ips(interface_ips: &Vec<IpAddress>, port: u16) -> (r: Vec<PeerAddr>)
    ensures
        r@ == endpoints(interface_ips@, port, true, true),
{
    endpoints_of(interface_ips, port, true, true)
}

/// The public IPv6 addresses a STUN answer gives: the address the server saw, and the
/// same address at the socket's own port.
pub open spec fn public_v6_spec(stun: Option<PeerAddr>, local_port: u16) -> Seq<PeerAddr> {
    match stun {
        Some(a) => seq![a, a.spec_with_port(local_port)],
        None => Seq::empty(),
    }
}

/// The public IPv6 addresses of a socket whose STUN server answered `stun`.
pub fn public_v6_addresses(stun: Option<PeerAddr>, local_port: u16) -> (r: Vec<PeerAddr>)
    ensures
        r@ == public_v6_spec(stun, local_port),
{
    let mut out: Vec<PeerAddr> = Vec::new();
    if let Some(a) = stun {
        out.push(a);
        out.push(a.with_port(local_port));
    }
    assert(out@ =~= public_v6_spec(stun, local_port));
    out
}

proof fn lemma_concat_contains(x: Seq<PeerAddr>, y: Seq<PeerAddr>, a: PeerAddr)
    ensures
        (x + y).contains(a) <==> x.contains(a) || y.contains(a),
{
    if (x + y).contains(a) {
        let k = choose|k: int| 0 <= k < (x + y).len() && (x + y)[k] == a;
        if k < x.len() {
            assert(x[k] == a);
        } else {
            assert(y[k - x.len()] == a);
        }
    }
    if x.contains(a) {
        let k = choose|k: int| 0 <= k < x.len() && x[k] == a;
        assert((x + y)[k] == a);
    }
    if y.contains(a) {
        let k = choose|k: int| 0 <= k < y.len() && y[k] == a;
        assert((x + y)[k + x.len()] == a);
    }
}

/// The interface address `ip` is of a family that `v4` and `v6` select.
pub open spec fn selected(ip: IpAddress, v4: bool, v6: bool) -> bool {
    match ip {
        IpAddress::V4(_) => v4,
        IpAddress::V6(_) => v6,
    }
}

/// The endpoints are exactly the selected interface addresses at the port.
pub proof fn lemma_endpoints(ips: Seq<IpAddress>, port: u16, v4: bool, v6: bool)
    ensures
        forall|j: int|
            0 <= j < ips.len() && selected(#[trigger] ips[j], v4, v6) ==> endpoints(
                ips,
                port,
                v4,
                v6,
            ).contains(endpoint(ips[j], port)),
        forall|a: PeerAddr| #[trigger]
            endpoints(ips, port, v4, v6).contains(a) ==> exists|j: int|
                0 <= j < ips.len() && selected(ips[j], v4, v6) && a == endpoint(#[trigger] ips[j], port),
    decreases ips.len(),
{
    if ips.len() > 0 {
        let rest = ips.drop_last();
        lemma_endpoints(rest, port, v4, v6);
        let e = endpoints(ips, port, v4, v6);
        let er = endpoints(rest, port, v4, v6);
        let last = ips.last();
        assert forall|j: int| 0 <= j < ips.len() && selected(#[trigger] ips[j], v4, v6) implies e.contains(
            endpoint(ips[j], port),
        ) by {
            if j < ips.len() - 1 {
                assert(rest[j] == ips[j]);
                let k = choose|k: int| 0 <= k < er.len() && er[k] == endpoint(rest[j], port);
                if selected(last, v4, v6) {
                    assert(e[k] == er[k]);
                } else {
                    assert(e == er);
                }
            } else {
                assert(e[e.len() - 1] == endpoint(last, port));
            }
        }
        assert forall|a: PeerAddr| #[trigger] e.contains(a) implies exists|j: int|
            0 <= j < ips.len() && selected(ips[j], v4, v6) && a == endpoint(#[trigger] ips[j], port) by {
            let k = choose|k: int| 0 <= k < e.len() && e[k] == a;
            if selected(last, v4, v6) && k == e.len() - 1 {
                assert(ips[ips.len() - 1] == last);
            } else {
                assert(er[k] == a);
                assert(er.contains(a));
                let j = choose|j: int|
                    0 <= j < rest.len() && selected(rest[j], v4, v6) && a == endpoint(#[trigger] rest[j], port);
                assert(ips[j] == rest[j]);
            }
        }
    }
}

/// What one address family of a socket offers: the socket's own address and the
/// addresses a STUN server reported.
pub struct FamilyCandidates {
    pub local: PeerAddr,
    pub public: Vec<PeerAddr>,
}

/// The candidates of one family: the socket's address, the interface addresses of that
/// family at the socket's port, and the public addresses.
pub open spec fn family_candidates(ips: Seq<IpAddress>, f: FamilyCandidates, v4: bool) -> Seq<PeerAddr> {
    seq![f.local] + endpoints(ips, f.local.spec_port(), v4, !v4) + f.public@
}

/// All candidates of a socket: those of its IPv4 side, then those of its IPv6 side.
pub open spec fn all_candidates(ips: Seq<IpAddress>, v4: Option<FamilyCandidates>, v6: Option<FamilyCandidates>) -> Seq<PeerAddr> {
    (match v4 {
        Some(f) => family_candidates(ips, f, true),
        None => Seq::empty(),
    }) + (match v6 {
        Some(f) => family_candidates(ips, f, false),
        None => Seq::empty(),
    })
}

fn push_family(out: &mut Vec<PeerAddr>, ips: &Vec<IpAddress>, f: &FamilyCandidates, v4: bool)
    ensures
        final(out)@ == old(out)@ + seq![f.local] + endpoints(ips@, f.local.spec_port(), v4, !v4)
            + f.public@,
{
    out.push(f.local);
    let port = match f.local {
        PeerAddr::V4 { port, .. } => port,
        PeerAddr::V6 { port, .. } => port,
    };
    let mut ends = endpoints_of(ips, port, v4, !v4);
    out.append(&mut ends);
    let mut i: usize = 0;
    let ghost start = out@;
    while i < f.public.len()
        invariant
            i <= f.public@.len(),
            out@ == start + f.public@.take(i as int),
        decreases f.public@.len() - i,
    {
        out.push(f.public[i]);
        i = i + 1;
        assert(out@ =~= start + f.public@.take(i as int));
    }
    assert(f.public@.take(i as int) =~= f.public@);
    assert(out@ =~= old(out)@ + seq![f.local] + endpoints(ips@, f.local.spec_port(), v4, !v4)
        + f.public@);
}

/// `a` is offered by the IPv4 side `f`: its own address, a public address, or an IPv4
/// interface address at its port.
pub open spec fn offered_by_v4(a: PeerAddr, ips: Seq<IpAddress>, f: FamilyCandidates) -> bool {
    ||| a == f.local
    ||| f.public@.contains(a)
    ||| a matches PeerAddr::V4 { ip, port } && port == f.local.spec_port() && ips.contains(
        IpAddress::V4(ip),
    )
}

/// `a` is offered by the IPv6 side `f`: its own address, a public address, or an IPv6
/// interface address at its port (no flow label, no scope).
pub open spec fn offered_by_v6(a: PeerAddr, ips: Seq<IpAddress>, f: FamilyCandidates) -> bool {
    ||| a == f.local
    ||| f.public@.contains(a)
    ||| a matches PeerAddr::V6 { ip, port, flowinfo, scope_id } && port == f.local.spec_port()
        && flowinfo == 0 && scope_id == 0 && ips.contains(IpAddress::V6(ip))
}

proof fn lemma_family_contains(ips: Seq<IpAddress>, f: FamilyCandidates, v4: bool, a: PeerAddr)
    ensures
        family_candidates(ips, f, v4).contains(a) ==> if v4 {
            offered_by_v4(a, ips, f)
        } else {
            offered_by_v6(a, ips, f)
        },
        (v4 ==> forall|ip: u32| #[trigger]
            ips.contains(IpAddress::V4(ip)) ==> family_candidates(ips, f, v4).contains(
                PeerAddr::V4 { ip, port: f.local.spec_port() },
            )),
        (!v4 ==> forall|ip: u128| #[trigger]
            ips.contains(IpAddress::V6(ip)) ==> family_candidates(ips, f, v4).contains(
                PeerAddr::V6 { ip, port: f.local.spec_port(), flowinfo: 0, scope_id: 0 },
            )),
        a == f.local || f.public@.contains(a) ==> family_candidates(ips, f, v4).contains(a),
{
    let port = f.local.spec_port();
    let e = endpoints(ips, port, v4, !v4);
    lemma_endpoints(ips, port, v4, !v4);
    let head = seq![f.local];
    lemma_concat_contains(head + e, f.public@, a);
    lemma_concat_contains(head, e, a);
    assert(head.contains(a) ==> a == f.local);
    assert(head[0] == f.local);
    if e.contains(a) {
        let j = choose|j: int| 0 <= j < ips.len() && selected(ips[j], v4, !v4) && a == endpoint(#[trigger] ips[j], port);
        assert(ips.contains(ips[j]));
    }
    if v4 {
        assert forall|ip: u32| #[trigger] ips.contains(IpAddress::V4(ip)) implies family_candidates(ips, f, v4).contains(
            PeerAddr::V4 { ip, port },
        ) by {
            let j = choose|j: int| 0 <= j < ips.len() && ips[j] == IpAddress::V4(ip);
            assert(selected(ips[j], v4, !v4));
            assert(e.contains(endpoint(ips[j], port)));
            lemma_concat_contains(head, e, PeerAddr::V4 { ip, port });
            lemma_concat_contains(head + e, f.public@, PeerAddr::V4 { ip, port });
        }
    } else {
        assert forall|ip: u128| #[trigger] ips.contains(IpAddress::V6(ip)) implies family_candidates(ips, f, v4).contains(
            PeerAddr::V6 { ip, port, flowinfo: 0, scope_id: 0 },
        ) by {
            let j = choose|j: int| 0 <= j < ips.len() && ips[j] == IpAddress::V6(ip);
            assert(selected(ips[j], v4, !v4));
            assert(e.contains(endpoint(ips[j], port)));
            lemma_concat_contains(head, e, PeerAddr::V6 { ip, port, flowinfo: 0, scope_id: 0 });
            lemma_concat_contains(head + e, f.public@, PeerAddr::V6 { ip, port, flowinfo: 0, scope_id: 0 });
        }
    }
}

/// The addresses a socket announces, from the machine's interface addresses and what each
/// of its address families offers: every candidate but the unspecified ones, each once.
pub fn announced_addresses(
    interface_ips: &Vec<IpAddress>,
    v4: &Option<FamilyCandidates>,
    v6: &Option<FamilyCandidates>,
) -> (r: Vec<PeerAddr>)
    ensures
        no_duplicates(r@),
        forall|a: PeerAddr| #[trigger]
            r@.contains(a) <==> (all_candidates(interface_ips@, *v4, *v6).contains(a)
                && !a.spec_is_unspecified()),
        forall|a: PeerAddr| #[trigger] r@.contains(a) ==> !a.spec_is_unspecified(),
        forall|a: PeerAddr| #[trigger]
            r@.contains(a) ==> (*v4 matches Some(f) && offered_by_v4(a, interface_ips@, f)) || (
            *v6 matches Some(g) && offered_by_v6(a, interface_ips@, g)),
        *v4 matches Some(f) ==> forall|ip: u32| #[trigger]
            interface_ips@.contains(IpAddress::V4(ip)) && ip != 0 ==> r@.contains(
                PeerAddr::V4 { ip, port: f.local.spec_port() },
            ),
        *v6 matches Some(g) ==> forall|ip: u128| #[trigger]
            interface_ips@.contains(IpAddress::V6(ip)) && ip != 0 ==> r@.contains(
                PeerAddr::V6 { ip, port: g.local.spec_port(), flowinfo: 0, scope_id: 0 },
            ),
{
    let mut candidates: Vec<PeerAddr> = Vec::new();
    if let Some(f) = v4 {
        push_family(&mut candidates, interface_ips, f, true);
    }
    if let Some(f) = v6 {
        push_family(&mut candidates, interface_ips, f, false);
    }
    assert(candidates@ =~= all_candidates(interface_ips@, *v4, *v6));
    let r = discovered_addresses(&candidates);
    proof {
        let ips = interface_ips@;
        let first = match v4 {
            Some(f) => family_candidates(ips, *f, true),
            None => Seq::empty(),
        };
        let second = match v6 {
            Some(f) => family_candidates(ips, *f, false),
            None => Seq::empty(),
        };
        assert(all_candidates(ips, *v4, *v6) == first + second);
        assert forall|a: PeerAddr| #[trigger] r@.contains(a) implies (*v4 matches Some(f)
            && offered_by_v4(a, ips, f)) || (*v6 matches Some(g) && offered_by_v6(a, ips, g)) by {
            lemma_concat_contains(first, second, a);
            if let Some(f) = v4 {
                lemma_family_contains(ips, *f, true, a);
            }
            if let Some(g) = v6 {
                lemma_family_contains(ips, *g, false, a);
            }
        }
        if let Some(f) = v4 {
            assert forall|ip: u32| #[trigger] ips.contains(IpAddress::V4(ip)) && ip != 0 implies r@.contains(
                PeerAddr::V4 { ip, port: f.local.spec_port() },
            ) by {
                let a = PeerAddr::V4 { ip, port: f.local.spec_port() };
                lemma_family_contains(ips, *f, true, a);
                lemma_concat_contains(first, second, a);
            }
        }
        if let Some(g) = v6 {
            assert forall|ip: u128| #[trigger] ips.contains(IpAddress::V6(ip)) && ip != 0 implies r@.contains(
                PeerAddr::V6 { ip, port: g.local.spec_port(), flowinfo: 0, scope_id: 0 },
            ) by {
                let a = PeerAddr::V6 { ip, port: g.local.spec_port(), flowinfo: 0, scope_id: 0 };
                lemma_family_contains(ips, *g, false, a);
                lemma_concat_contains(first, second, a);
            }
        }
    }
    r
}

/// Whether `a` occurs in `s`.
fn contains_addr(s: &Vec<PeerAddr>, a: &PeerAddr) -> (r: bool)
    ensures
        r == s@.contains(*a),
{
    let mut i: usize = 0;
    while i < s.len()
        invariant
            i <= s@.len(),
            forall|j: int| 0 <= j < i ==> s@[j] != *a,
        decreases s@.len() - i,
    {
        if s[i] == *a {
            assert(s@[i as int] == *a);
            return true;
        }
        i = i + 1;
    }
    false
}

/// The addresses to announce: every candidate but the unspecified ones, each once.
pub fn discovered_addresses(candidates: &Vec<PeerAddr>) -> (r: Vec<PeerAddr>)
    ensures
        no_duplicates(r@),
        forall|a: PeerAddr| #[trigger]
            r@.contains(a) <==> (candidates@.contains(a) && !a.spec_is_unspecified()),
{
    let mut out: Vec<PeerAddr> = Vec::new();
    let mut i: usize = 0;
    while i < candidates.len()
        invariant
            i <= candidates@.len(),
            no_duplicates(out@),
            forall|a: PeerAddr| #[trigger]
                out@.contains(a) <==> (candidates@.take(i as int).contains(a)
                    && !a.spec_is_unspecified()),
        decreases candidates@.len() - i,
    {
        let a = candidates[i];
        let ghost before = out@;
        if !a.is_unspecified() && !contains_addr(&out, &a) {
            out.push(a);
        }
        let ghost t = candidates@.take(i as int);
        let ghost t1 = candidates@.take(i + 1);
        assert(t1 =~= t.push(a));
        assert forall|b: PeerAddr| #[trigger]
            out@.contains(b) <==> (t1.contains(b) && !b.spec_is_unspecified()) by {
            if out@.contains(b) {
                let k = choose|k: int| 0 <= k < out@.len() && out@[k] == b;
                if k < before.len() {
                    assert(before[k] == b);
                    assert(before.contains(b));
                    let q = choose|q: int| 0 <= q < t.len() && t[q] == b;
                    assert(t1[q] == b);
                } else {
                    assert(b == a);
                    assert(t1[i as int] == a);
                }
            }
            if t1.contains(b) && !b.spec_is_unspecified() {
                let q = choose|q: int| 0 <= q < t1.len() && t1[q] == b;
                if q < i {
                    assert(t[q] == b);
                    assert(t.contains(b));
                    assert(before.contains(b));
                    let k = choose|k: int| 0 <= k < before.len() && before[k] == b;
                    assert(out@[k] == b);
                } else {
                    assert(b == a);
                    if before.contains(a) {
                        let k = choose|k: int| 0 <= k < before.len() && before[k] == b;
                        assert(out@[k] == b);
                    } else {
                        assert(out@[out@.len() - 1] == a);
                    }
                }
            }
        }
        i = i + 1;
    }
    assert(candidates@.take(i as int) =~= candidates@);
    out
}

} // verus!
