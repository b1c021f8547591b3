//! The table of sessions of one socket, and what each incoming datagram does to it.
//!
//! A session is in exactly one of four phases: poking (a responder waiting for the
//! initiation), initiating (an initiator waiting for the response), responding (a
//! responder waiting for the first keepalive), or established. Every entry carries a
//! one-time identifier, drawn afresh each time a session is started, so that closing an
//! old incarnation of a session never removes a newer one under the same identifier.
use crate::session::{
    encode_message, fits_frame, liveness_check, payload_seq, packet_bytes, parse_message, parse_raw, InitiatorOutcome, MessageView, PendingSessionInitiator,
    PendingSessionPoker, PendingSessionResponder, RawMessageView, Session, SessionId,
    SessionPacket, parse_session_packet,
};
use crate::snow_types::{
    HandshakeSetup, NOISE_PARAMS, fresh_transport, next_after_send, parse_nonced, window_after, window_rejects, SnowError, SnowInitiator, SnowKeypair,
    SnowResponder,
};
use crate::veq::{distinct_of, ConnectionInfo, PeerAddr, VeqError};
use std::collections::HashMap;
use vstd::prelude::*;

verus! {

broadcast use vstd::std_specs::hash::group_hash_axioms;

/// Distinguishes one start of a session from another start under the same identifier.
pub type OneTimeId = SessionId;

/// `uuid::Uuid::new_v4`, as an integer: a random identifier. Nothing is claimed of it.
#[verifier::external_body]
fn new_one_time_id() -> (r: u128) {
    uuid::Uuid::new_v4().as_u128()
}

/// Why the handler refused a request.
#[derive(Debug, Clone, Copy, PartialEq, Eq, Structural)]
pub enum HandlerError {
    /// The datagram could not be decoded.
    Malformed,
    /// There is no established session under that identifier.
    NotEstablished,
    /// The session has died.
    Disconnected,
}

/// The one-time identifier of every session in each phase.
pub struct HandlerView {
    pub poker: Map<SessionId, OneTimeId>,
    pub initiator: Map<SessionId, OneTimeId>,
    pub responder: Map<SessionId, OneTimeId>,
    pub established: Map<SessionId, OneTimeId>,
}

/// An entry is removed by a close that names no one-time identifier, or names its own.
pub open spec fn removed_if(m: Map<SessionId, OneTimeId>, id: SessionId, otid: Option<OneTimeId>) -> Map<
    SessionId,
    OneTimeId,
> {
    match otid {
        None => m.remove(id),
        Some(o) => if m.contains_key(id) && m[id] == o {
            m.remove(id)
        } else {
            m
        },
    }
}

/// The table after closing session `id` (in whatever phase it is).
pub open spec fn close_view(v: HandlerView, id: SessionId, otid: Option<OneTimeId>) -> HandlerView {
    HandlerView {
        poker: removed_if(v.poker, id, otid),
        initiator: removed_if(v.initiator, id, otid),
        responder: removed_if(v.responder, id, otid),
        established: removed_if(v.established, id, otid),
    }
}

/// Session `id` is in some phase, with one-time identifier `o`.
pub open spec fn holds(v: HandlerView, id: SessionId, o: OneTimeId) -> bool {
    ||| v.poker.contains_key(id) && v.poker[id] == o
    ||| v.initiator.contains_key(id) && v.initiator[id] == o
    ||| v.responder.contains_key(id) && v.responder[id] == o
    ||| v.established.contains_key(id) && v.established[id] == o
}

/// Session `id` is in no phase.
pub open spec fn absent(v: HandlerView, id: SessionId) -> bool {
    &&& !v.poker.contains_key(id)
    &&& !v.initiator.contains_key(id)
    &&& !v.responder.contains_key(id)
    &&& !v.established.contains_key(id)
}

/// Session `id` is in at most one phase.
pub open spec fn excl_at(v: HandlerView, id: SessionId) -> bool {
    &&& v.poker.contains_key(id) ==> !v.initiator.contains_key(id) && !v.responder.contains_key(id)
        && !v.established.contains_key(id)
    &&& v.initiator.contains_key(id) ==> !v.responder.contains_key(id)
        && !v.established.contains_key(id)
    &&& v.responder.contains_key(id) ==> !v.established.contains_key(id)
}

/// No session is in two phases at once.
pub open spec fn exclusive(v: HandlerView) -> bool {
    forall|id: SessionId| #[trigger] excl_at(v, id)
}

/// Changing one session's entries, without putting it in two phases, keeps the table
/// exclusive.
pub proof fn lemma_exclusive_after(v: HandlerView, w: HandlerView, id: SessionId)
    requires
        exclusive(v),
        same_elsewhere(v, w, id),
        excl_at(w, id),
    ensures
        exclusive(w),
{
    assert forall|k: SessionId| #[trigger] excl_at(w, k) by {
        if k != id {
            assert(excl_at(v, k));
            assert(w.poker.contains_key(k) == w.poker.remove(id).contains_key(k));
            assert(w.initiator.contains_key(k) == w.initiator.remove(id).contains_key(k));
            assert(w.responder.contains_key(k) == w.responder.remove(id).contains_key(k));
            assert(w.established.contains_key(k) == w.established.remove(id).contains_key(k));
            assert(v.poker.contains_key(k) == v.poker.remove(id).contains_key(k));
            assert(v.initiator.contains_key(k) == v.initiator.remove(id).contains_key(k));
            assert(v.responder.contains_key(k) == v.responder.remove(id).contains_key(k));
            assert(v.established.contains_key(k) == v.established.remove(id).contains_key(k));
        }
    }
}

/// Closing a session in its current incarnation removes it from the table; closing it
/// under the one-time identifier of an earlier incarnation leaves it where it is. This is
/// what lets a session identifier be reused while the close of its previous use is still
/// on its way.
pub proof fn lemma_close_by_one_time_id(v: HandlerView, id: SessionId, current: OneTimeId, stale: OneTimeId)
    requires
        exclusive(v),
        holds(v, id, current),
        stale != current,
    ensures
        absent(close_view(v, id, Some(current)), id),
        close_view(v, id, Some(stale)) == v,
{
    assert(excl_at(v, id));
    let w = close_view(v, id, Some(stale));
    assert(w.poker =~= v.poker);
    assert(w.initiator =~= v.initiator);
    assert(w.responder =~= v.responder);
    assert(w.established =~= v.established);
}

/// Closing a session without naming an incarnation removes it whatever its phase.
pub proof fn lemma_close_any(v: HandlerView, id: SessionId)
    ensures
        absent(close_view(v, id, None), id),
        exclusive(v) ==> exclusive(close_view(v, id, None)),
{
    let w = close_view(v, id, None);
    if exclusive(v) {
        assert(w.poker.remove(id) =~= v.poker.remove(id));
        assert(w.initiator.remove(id) =~= v.initiator.remove(id));
        assert(w.responder.remove(id) =~= v.responder.remove(id));
        assert(w.established.remove(id) =~= v.established.remove(id));
        lemma_exclusive_after(v, w, id);
    }
}

/// The phases of a session.
#[derive(PartialEq, Eq, Structural)]
pub enum Phase {
    Poking,
    Initiating,
    Responding,
    Established,
}

/// The phase of session `id` and its one-time identifier, if the table holds it.
pub open spec fn phase_of(v: HandlerView, id: SessionId) -> Option<(Phase, OneTimeId)> {
    if v.poker.contains_key(id) {
        Some((Phase::Poking, v.poker[id]))
    } else if v.initiator.contains_key(id) {
        Some((Phase::Initiating, v.initiator[id]))
    } else if v.responder.contains_key(id) {
        Some((Phase::Responding, v.responder[id]))
    } else if v.established.contains_key(id) {
        Some((Phase::Established, v.established[id]))
    } else {
        None
    }
}

/// The moves a session can make on an incoming datagram: a poker starts responding, an
/// initiator or a responder becomes established; or it stays where it is.
pub open spec fn allowed_move(p: Phase, q: Phase) -> bool {
    ||| p == q
    ||| p == Phase::Poking && q == Phase::Responding
    ||| p == Phase::Initiating && q == Phase::Established
    ||| p == Phase::Responding && q == Phase::Established
}

/// The phase alone.
pub open spec fn phase_only(x: Option<(Phase, OneTimeId)>) -> Option<Phase> {
    match x {
        Some((p, _)) => Some(p),
        None => None,
    }
}

/// Where a datagram with body `body` may take a session in phase `p` (`None`: the session
/// is dropped). A poker starts responding only on an initiation, an initiator is
/// established only on a response, a responder only on an encrypted message; a
/// handshake that breaks down drops the session; any other datagram leaves the phase as
/// it is, and an established session stays established.
pub open spec fn incoming_moves(p: Phase, body: Seq<u8>, q: Option<Phase>) -> bool {
    match p {
        Phase::Poking => if parse_raw(body) matches Some(RawMessageView::HandshakeInitiation(_)) {
            q == Some(Phase::Responding) || q is None
        } else {
            q == Some(Phase::Poking)
        },
        Phase::Initiating => if parse_raw(body) matches Some(RawMessageView::HandshakeResponse(_)) {
            q == Some(Phase::Initiating) || q == Some(Phase::Established) || q is None
        } else {
            q == Some(Phase::Initiating)
        },
        Phase::Responding => if parse_raw(body) matches Some(RawMessageView::Encrypted(_)) {
            q == Some(Phase::Responding) || q == Some(Phase::Established)
        } else {
            q == Some(Phase::Responding)
        },
        Phase::Established => q == Some(Phase::Established),
    }
}

/// The table `w` differs from `v` at most in session `id`.
pub open spec fn same_elsewhere(v: HandlerView, w: HandlerView, id: SessionId) -> bool {
    &&& w.poker.remove(id) == v.poker.remove(id)
    &&& w.initiator.remove(id) == v.initiator.remove(id)
    &&& w.responder.remove(id) == v.responder.remove(id)
    &&& w.established.remove(id) == v.established.remove(id)
}

/// What a datagram of session `id` may do to the table: only that session moves, it moves
/// forward (or is dropped when its handshake breaks down), and it keeps its one-time
/// identifier. An unknown session is left alone. `became_established` says whether the
/// session was established by this datagram.
pub open spec fn incoming_step(v: HandlerView, w: HandlerView, id: SessionId, became_established: bool) -> bool {
    &&& same_elsewhere(v, w, id)
    &&& match phase_of(v, id) {
        None => phase_of(w, id) is None,
        Some((p, o)) => match phase_of(w, id) {
            None => p != Phase::Established,
            Some((q, o2)) => o2 == o && allowed_move(p, q),
        },
    }
    &&& became_established <==> (phase_of(w, id) matches Some((Phase::Established, _))
        && !(phase_of(v, id) matches Some((Phase::Established, _))))
}

/// What the table holds under one session identifier, in each phase, with the one-time
/// identifiers.
pub struct HandlerEntry {
    pub poker: Option<(PendingSessionPoker, OneTimeId)>,
    pub initiator: Option<(PendingSessionInitiator, OneTimeId)>,
    pub responder: Option<(PendingSessionResponder, OneTimeId)>,
    pub established: Option<(OneTimeId, Session)>,
}

/// The value under `k`, if any.
pub open spec fn lookup<V>(m: Map<SessionId, V>, k: SessionId) -> Option<V> {
    if m.contains_key(k) {
        Some(m[k])
    } else {
        None
    }
}

/// An entry part kept unless the close names no incarnation or names its own.
pub open spec fn kept_unless_closed<T>(x: Option<(T, OneTimeId)>, otid: Option<OneTimeId>) -> Option<
    (T, OneTimeId),
> {
    match (x, otid) {
        (Some(e), Some(o)) => if e.1 == o {
            None
        } else {
            Some(e)
        },
        _ => None,
    }
}

/// The entry of a session after a close: each phase's part is removed by a close that
/// names no incarnation or names its own, and kept exactly as it was otherwise.
pub open spec fn closed_entry(e: HandlerEntry, otid: Option<OneTimeId>) -> HandlerEntry {
    HandlerEntry {
        poker: kept_unless_closed(e.poker, otid),
        initiator: kept_unless_closed(e.initiator, otid),
        responder: kept_unless_closed(e.responder, otid),
        established: match (e.established, otid) {
            (Some(x), Some(o)) => if x.0 == o {
                None
            } else {
                Some(x)
            },
            _ => None,
        },
    }
}

/// A close under a one-time identifier that none of the entry's parts carries leaves the
/// entry exactly as it was: a stale close never touches a newer incarnation.
pub proof fn lemma_stale_close_keeps_entry(e: HandlerEntry, stale: OneTimeId)
    requires
        e.poker matches Some(p) ==> p.1 != stale,
        e.initiator matches Some(p) ==> p.1 != stale,
        e.responder matches Some(p) ==> p.1 != stale,
        e.established matches Some(x) ==> x.0 != stale,
    ensures
        closed_entry(e, Some(stale)) == e,
{
}

/// A transport window after a datagram with body `body`: an encrypted message under a
/// nonce goes through the window, which refuses it or records it; any other body leaves
/// the window as it is.
pub open spec fn window_on(window: Seq<u64>, size: nat, body: Seq<u8>) -> Seq<u64> {
    match parse_raw(body) {
        Some(RawMessageView::Encrypted(en)) => match parse_nonced(en) {
            Some((nonce, _)) => if window_rejects(window, nonce) {
                window
            } else {
                window_after(window, nonce, size)
            },
            None => window,
        },
        _ => window,
    }
}

/// The body is an encrypted message framed with a nonce.
pub open spec fn is_nonced_body(body: Seq<u8>) -> bool {
    parse_raw(body) matches Some(RawMessageView::Encrypted(en)) && parse_nonced(en) is Some
}

/// An entry holding nothing.
pub open spec fn empty_entry() -> HandlerEntry {
    HandlerEntry { poker: None, initiator: None, responder: None, established: None }
}

/// What a datagram with body `body` from `src` does to the entry of its own session `id`,
/// given the outcomes that the handshake may have:
/// - a poker that receives an initiation is answered and responds to where the
///   initiation came from, or is dropped when the handshake refuses the initiation;
/// - an initiator that receives a response is established towards where the response
///   came from, or keeps waiting with its initiation when the response is refused, or is
///   dropped when the handshake breaks down;
/// - a responder that receives an encrypted message is established once it is ready,
///   with its address and transport, or keeps waiting;
/// - an established session stays established under its one-time identifier;
/// - any other datagram, and a datagram of an unknown session, change nothing.
pub open spec fn entry_step(e: HandlerEntry, id: SessionId, src: PeerAddr, body: Seq<u8>, f: HandlerEntry) -> bool {
    if let Some((_, o)) = e.poker {
        if parse_raw(body) matches Some(RawMessageView::HandshakeInitiation(_)) {
            ||| f == empty_entry()
            ||| f.poker is None && f.initiator is None && f.established is None && (
            f.responder matches Some((r, o2)) && o2 == o && r.spec_id() == id
                && r.spec_remote_addr() == src && !r.spec_ready() && fresh_transport(
                r.spec_transport(),
            ))
        } else {
            f == e
        }
    } else if let Some((p, o)) = e.initiator {
        if parse_raw(body) matches Some(RawMessageView::HandshakeResponse(_)) {
            ||| f == empty_entry()
            ||| f.poker is None && f.responder is None && f.established is None && (
            f.initiator matches Some((q, o2)) && o2 == o && q.spec_id() == id
                && q.spec_addresses() == p.spec_addresses() && q.spec_initiation()
                == p.spec_initiation() && q.spec_setup() == p.spec_setup() && q.spec_working() is None)
            ||| f.poker is None && f.initiator is None && f.responder is None && (
            f.established matches Some((o2, t)) && o2 == o && t.spec_id() == id
                && t.spec_remote_addr() == src && t.spec_fresh())
        } else {
            f == e
        }
    } else if let Some((r, o)) = e.responder {
        if is_nonced_body(body) {
            let w = window_on(r.spec_transport().window(), r.spec_transport().spec_size(), body);
            ||| f.poker is None && f.initiator is None && f.established is None && (
            f.responder matches Some((q, o2)) && o2 == o && q.spec_id() == id
                && q.spec_remote_addr() == r.spec_remote_addr() && q.spec_response()
                == r.spec_response() && !q.spec_ready() && q.spec_transport().window() == w)
            ||| f.poker is None && f.initiator is None && f.responder is None && (
            f.established matches Some((o2, t)) && o2 == o && t.spec_id() == id
                && t.spec_remote_addr() == r.spec_remote_addr() && t.spec_inbox().len() == 0
                && !t.spec_dead() && t.spec_heartbeat() && t.spec_transport().window() == w)
        } else {
            f == e
        }
    } else if let Some((o, _)) = e.established {
        f.poker is None && f.initiator is None && f.responder is None && (
        f.established matches Some((o2, _)) && o2 == o)
    } else {
        f == e
    }
}

/// The sessions of one socket, by phase.
pub struct Handler {
    pending_sessions_poker: HashMap<SessionId, (PendingSessionPoker, OneTimeId)>,
    pending_sessions_initiator: HashMap<SessionId, (PendingSessionInitiator, OneTimeId)>,
    pending_sessions_responder: HashMap<SessionId, (PendingSessionResponder, OneTimeId)>,
    established_sessions: HashMap<SessionId, (OneTimeId, Session)>,
    keypair: SnowKeypair,
}

impl Handler {
    pub closed spec fn view(&self) -> HandlerView {
        HandlerView {
            poker: self.pending_sessions_poker@.map_values(
                |e: (PendingSessionPoker, OneTimeId)| e.1,
            ),
            initiator: self.pending_sessions_initiator@.map_values(
                |e: (PendingSessionInitiator, OneTimeId)| e.1,
            ),
            responder: self.pending_sessions_responder@.map_values(
                |e: (PendingSessionResponder, OneTimeId)| e.1,
            ),
            established: self.established_sessions@.map_values(|e: (OneTimeId, Session)| e.0),
        }
    }

    /// The established session `id`.
    pub closed spec fn spec_session(&self, id: SessionId) -> Session {
        self.established_sessions@[id].1
    }

    /// The poking responder of session `id`.
    pub closed spec fn spec_poker(&self, id: SessionId) -> PendingSessionPoker {
        self.pending_sessions_poker@[id].0
    }

    /// The initiator of session `id`.
    pub closed spec fn spec_initiator(&self, id: SessionId) -> PendingSessionInitiator {
        self.pending_sessions_initiator@[id].0
    }

    /// The answering responder of session `id`.
    pub closed spec fn spec_responder(&self, id: SessionId) -> PendingSessionResponder {
        self.pending_sessions_responder@[id].0
    }

    /// The keypair the sessions are authenticated with.
    pub closed spec fn spec_keypair(&self) -> SnowKeypair {
        self.keypair
    }

    /// A well-formed table holds no session in two phases at once.
    pub proof fn lemma_wf_exclusive(&self)
        requires
            self.wf(),
        ensures
            exclusive(self.view()),
    {
    }

    /// The transport of every established session of a well-formed table is well formed.
    pub proof fn lemma_wf_transport(&self, id: SessionId)
        requires
            self.wf(),
            self.view().established.contains_key(id),
        ensures
            self.spec_session(id).spec_transport().wf(),
    {
        assert(self.established_sessions@.contains_key(id));
    }

    /// Everything the table holds under `k`.
    pub closed spec fn entry(&self, k: SessionId) -> HandlerEntry {
        HandlerEntry {
            poker: lookup(self.pending_sessions_poker@, k),
            initiator: lookup(self.pending_sessions_initiator@, k),
            responder: lookup(self.pending_sessions_responder@, k),
            established: lookup(self.established_sessions@, k),
        }
    }

    /// Every identifier other than `id` holds in `other` exactly what it holds here.
    pub open spec fn others_kept(&self, other: &Handler, id: SessionId) -> bool {
        forall|k: SessionId| k != id ==> #[trigger] other.entry(k) == self.entry(k)
    }

    /// Every entry is filed under its own session's identifier, every transport is
    /// well formed, and no session is in two phases.
    pub closed spec fn wf(&self) -> bool {
        &&& exclusive(self.view())
        &&& forall|id: SessionId|
            #![trigger self.pending_sessions_poker@[id]]
            self.pending_sessions_poker@.contains_key(id) ==> {
                &&& self.pending_sessions_poker@[id].0.spec_id() == id
                &&& self.pending_sessions_poker@[id].0.spec_working() is None
            }
        &&& forall|id: SessionId|
            #![trigger self.pending_sessions_initiator@[id]]
            self.pending_sessions_initiator@.contains_key(id) ==> {
                &&& self.pending_sessions_initiator@[id].0.spec_id() == id
                &&& self.pending_sessions_initiator@[id].0.spec_working() is None
            }
        &&& forall|id: SessionId|
            #![trigger self.pending_sessions_responder@[id]]
            self.pending_sessions_responder@.contains_key(id) ==> {
                &&& self.pending_sessions_responder@[id].0.spec_id() == id
                &&& self.pending_sessions_responder@[id].0.spec_transport().wf()
                &&& !self.pending_sessions_responder@[id].0.spec_ready()
            }
        &&& forall|id: SessionId|
            #![trigger self.established_sessions@[id]]
            self.established_sessions@.contains_key(id) ==> {
                &&& self.spec_session(id).spec_id() == id
                &&& self.spec_session(id).spec_transport().wf()
            }
    }

    /// An empty table.
    pub fn new(keypair: SnowKeypair) -> (h: Handler)
        ensures
            h.wf(),
            h.spec_keypair() == keypair,
            h.view().poker == Map::<SessionId, OneTimeId>::empty(),
            h.view().initiator == Map::<SessionId, OneTimeId>::empty(),
            h.view().responder == Map::<SessionId, OneTimeId>::empty(),
            h.view().established == Map::<SessionId, OneTimeId>::empty(),
    {
        let h = Handler {
            pending_sessions_poker: HashMap::new(),
            pending_sessions_initiator: HashMap::new(),
            pending_sessions_responder: HashMap::new(),
            established_sessions: HashMap::new(),
            keypair,
        };
        assert(h.view().poker =~= Map::empty());
        assert(h.view().initiator =~= Map::empty());
        assert(h.view().responder =~= Map::empty());
        assert(h.view().established =~= Map::empty());
        h
    }

    /// Removes session `id` from every phase; with `Some(one_time_id)`, only an entry of
    /// that incarnation is removed.
    pub fn remove_session(&mut self, id: SessionId, one_time_id: Option<OneTimeId>)
        requires
            old(self).wf(),
        ensures
            final(self).wf(),
            final(self).view() == close_view(old(self).view(), id, one_time_id),
            final(self).spec_keypair() == old(self).spec_keypair(),
            old(self).others_kept(final(self), id),
            final(self).entry(id) == closed_entry(old(self).entry(id), one_time_id),
    {
        let ghost v0 = self.view();
        // established
        match one_time_id {
            Some(o) => {
                let matches = match self.established_sessions.get(&id) {
                    Some(entry) => entry.0 == o,
                    None => false,
                };
                if matches {
                    self.established_sessions.remove(&id);
                }
            },
            None => {
                self.established_sessions.remove(&id);
            },
        }
        // responding
        match one_time_id {
            Some(o) => {
                let matches = match self.pending_sessions_responder.get(&id) {
                    Some(entry) => entry.1 == o,
                    None => false,
                };
                if matches {
                    self.pending_sessions_responder.remove(&id);
                }
            },
            None => {
                self.pending_sessions_responder.remove(&id);
            },
        }
        // poking
        match one_time_id {
            Some(o) => {
                let matches = match self.pending_sessions_poker.get(&id) {
                    Some(entry) => entry.1 == o,
                    None => false,
                };
                if matches {
                    self.pending_sessions_poker.remove(&id);
                }
            },
            None => {
                self.pending_sessions_poker.remove(&id);
            },
        }
        // initiating
        match one_time_id {
            Some(o) => {
                let matches = match self.pending_sessions_initiator.get(&id) {
                    Some(entry) => entry.1 == o,
                    None => false,
                };
                if matches {
                    self.pending_sessions_initiator.remove(&id);
                }
            },
            None => {
                self.pending_sessions_initiator.remove(&id);
            },
        }
        assert(self.view().poker =~= removed_if(v0.poker, id, one_time_id));
        assert(self.view().initiator =~= removed_if(v0.initiator, id, one_time_id));
        assert(self.view().responder =~= removed_if(v0.responder, id, one_time_id));
        assert(self.view().established =~= removed_if(v0.established, id, one_time_id));
        proof {
            let w = self.view();
            assert(excl_at(v0, id));
            assert(w.poker.remove(id) =~= v0.poker.remove(id));
            assert(w.initiator.remove(id) =~= v0.initiator.remove(id));
            assert(w.responder.remove(id) =~= v0.responder.remove(id));
            assert(w.established.remove(id) =~= v0.established.remove(id));
            lemma_exclusive_after(v0, w, id);
        }
    }
}


impl Handler {
    /// Starts a handshake as initiator for session `id` with the peer `info`, replacing any
    /// earlier session under that identifier. Gives the new one-time identifier.
    pub fn initiate(&mut self, id: SessionId, info: ConnectionInfo) -> (r: Result<OneTimeId, SnowError>)
        requires
            old(self).wf(),
        ensures
            final(self).wf(),
            final(self).spec_keypair() == old(self).spec_keypair(),
            ({
                let c = close_view(old(self).view(), id, None);
                &&& r matches Ok(o) ==> final(self).view() == (HandlerView {
                    initiator: c.initiator.insert(id, o),
                    ..c
                }) && distinct_of(final(self).spec_initiator(id).spec_addresses(), info.addresses@)
                &&& r is Err ==> final(self).view() == c
            }),
            old(self).others_kept(final(self), id),
            r matches Ok(o) ==> ({
                let e = final(self).entry(id);
                &&& e.poker is None && e.responder is None && e.established is None
                &&& e.initiator matches Some((p, o2)) && o2 == o && p.spec_id() == id
                    && distinct_of(p.spec_addresses(), info.addresses@) && p.spec_working() is None
                    && p.spec_setup() == (HandshakeSetup {
                    initiator: true,
                    params: NOISE_PARAMS@,
                    local: old(self).spec_keypair().1@,
                    remote: info.public_key@,
                })
            }),
            r is Err ==> final(self).entry(id) == empty_entry(),
            old(self).spec_keypair().1@.len() > 32 || info.public_key@.len() > 56 ==> r == Err::<
                OneTimeId,
                SnowError,
            >(SnowError::Input),
    {
        self.remove_session(id, None);
        let ghost c = self.view();
        let initiator = match SnowInitiator::new(&self.keypair, &info.public_key) {
            Ok(i) => i,
            Err(e) => return Err(e),
        };
        let pending = PendingSessionInitiator::new(id, info, initiator);
        let otid = new_one_time_id();
        let ghost mid: Handler = *self;
        self.pending_sessions_initiator.insert(id, (pending, otid));
        proof {
            assert forall|k: SessionId| k != id implies #[trigger] self.entry(k) == old(self).entry(k) by {
                assert(self.entry(k) == mid.entry(k));
            }
        }
        assert(self.view().initiator =~= c.initiator.insert(id, otid));
        proof {
            lemma_close_any(old(self).view(), id);
            let w = self.view();
            assert(w.poker.remove(id) =~= c.poker.remove(id));
            assert(w.initiator.remove(id) =~= c.initiator.remove(id));
            assert(w.responder.remove(id) =~= c.responder.remove(id));
            assert(w.established.remove(id) =~= c.established.remove(id));
            lemma_exclusive_after(c, w, id);
        }
        assert(self.view().poker =~= c.poker);
        assert(self.view().responder =~= c.responder);
        assert(self.view().established =~= c.established);
        Ok(otid)
    }

    /// Starts a handshake as responder for session `id` with the peer `info`, replacing any
    /// earlier session under that identifier; the responder pokes until the initiation
    /// arrives. Gives the new one-time identifier.
    pub fn respond(&mut self, id: SessionId, info: ConnectionInfo) -> (r: Result<OneTimeId, SnowError>)
        requires
            old(self).wf(),
        ensures
            final(self).wf(),
            final(self).spec_keypair() == old(self).spec_keypair(),
            ({
                let c = close_view(old(self).view(), id, None);
                &&& r matches Ok(o) ==> final(self).view() == (HandlerView {
                    poker: c.poker.insert(id, o),
                    ..c
                }) && distinct_of(final(self).spec_poker(id).spec_addresses(), info.addresses@)
                &&& r is Err ==> final(self).view() == c
            }),
            old(self).others_kept(final(self), id),
            r matches Ok(o) ==> ({
                let e = final(self).entry(id);
                &&& e.initiator is None && e.responder is None && e.established is None
                &&& e.poker matches Some((p, o2)) && o2 == o && p.spec_id() == id
                    && distinct_of(p.spec_addresses(), info.addresses@) && p.spec_working() is None
                    && p.spec_setup() == (HandshakeSetup {
                    initiator: false,
                    params: NOISE_PARAMS@,
                    local: old(self).spec_keypair().1@,
                    remote: info.public_key@,
                })
            }),
            r is Err ==> final(self).entry(id) == empty_entry(),
            r is Ok <==> old(self).spec_keypair().1@.len() <= 32 && info.public_key@.len() <= 56,
    {
        self.remove_session(id, None);
        let ghost c = self.view();
        let responder = match SnowResponder::new(&self.keypair, &info.public_key) {
            Ok(x) => x,
            Err(e) => return Err(e),
        };
        let poking = PendingSessionPoker::new(id, info, responder);
        let otid = new_one_time_id();
        let ghost mid: Handler = *self;
        self.pending_sessions_poker.insert(id, (poking, otid));
        proof {
            assert forall|k: SessionId| k != id implies #[trigger] self.entry(k) == old(self).entry(k) by {
                assert(self.entry(k) == mid.entry(k));
            }
        }
        assert(self.view().poker =~= c.poker.insert(id, otid));
        proof {
            lemma_close_any(old(self).view(), id);
            let w = self.view();
            assert(w.poker.remove(id) =~= c.poker.remove(id));
            assert(w.initiator.remove(id) =~= c.initiator.remove(id));
            assert(w.responder.remove(id) =~= c.responder.remove(id));
            assert(w.established.remove(id) =~= c.established.remove(id));
            lemma_exclusive_after(c, w, id);
        }
        assert(self.view().initiator =~= c.initiator);
        assert(self.view().responder =~= c.responder);
        assert(self.view().established =~= c.established);
        Ok(otid)
    }

    /// Files the outcome of answering a poker's initiation under session `id`, which the
    /// table does not hold: an answered initiation makes the session respond under the
    /// one-time identifier `otid`; a refused one leaves the session out of the table.
    /// Says whether the session was filed.
    fn file_answer(
        &mut self,
        id: SessionId,
        otid: OneTimeId,
        outcome: Option<Result<PendingSessionResponder, SnowError>>,
    ) -> (filed: bool)
        requires
            old(self).wf(),
            absent(old(self).view(), id),
            outcome matches Some(Ok(r)) ==> r.spec_id() == id && r.spec_transport().wf()
                && !r.spec_ready(),
        ensures
            final(self).wf(),
            final(self).spec_keypair() == old(self).spec_keypair(),
            old(self).others_kept(final(self), id),
            filed == (outcome matches Some(Ok(_))),
            outcome matches Some(Ok(r)) ==> final(self).entry(id) == (HandlerEntry {
                responder: Some((r, otid)),
                ..empty_entry()
            }) && final(self).view() == (HandlerView {
                responder: old(self).view().responder.insert(id, otid),
                ..old(self).view()
            }),
            !(outcome matches Some(Ok(_))) ==> *final(self) == *old(self),
    {
        match outcome {
            Some(Ok(responder)) => {
                let ghost v = self.view();
                let ghost mid: Handler = *self;
                self.pending_sessions_responder.insert(id, (responder, otid));
                assert(self.view().responder =~= v.responder.insert(id, otid));
                assert(self.view().poker =~= v.poker);
                assert(self.view().initiator =~= v.initiator);
                assert(self.view().established =~= v.established);
                proof {
                    let w = self.view();
                    assert(w.responder.remove(id) =~= v.responder.remove(id));
                    lemma_exclusive_after(v, w, id);
                    assert forall|k: SessionId| k != id implies #[trigger] self.entry(k)
                        == mid.entry(k) by {
                        assert(lookup(self.pending_sessions_responder@, k) == lookup(
                            mid.pending_sessions_responder@,
                            k,
                        ));
                    }
                }
                true
            },
            _ => false,
        }
    }

    /// Files the outcome of an initiator's response under session `id`, which the table
    /// does not hold: a completed handshake establishes the session, a refused response
    /// leaves it waiting, both under the one-time identifier `otid`; a handshake that broke
    /// down leaves the session out of the table. Says whether the session was established.
    fn file_initiator_outcome(&mut self, id: SessionId, otid: OneTimeId, outcome: InitiatorOutcome) -> (established: bool)
        requires
            old(self).wf(),
            absent(old(self).view(), id),
            outcome matches InitiatorOutcome::Established(t) ==> t.spec_id() == id
                && t.spec_transport().wf(),
            outcome matches InitiatorOutcome::Pending(p) ==> p.spec_id() == id && p.spec_working() is None,
        ensures
            final(self).wf(),
            final(self).spec_keypair() == old(self).spec_keypair(),
            old(self).others_kept(final(self), id),
            established == (outcome is Established),
            outcome matches InitiatorOutcome::Established(t) ==> final(self).entry(id) == (HandlerEntry {
                established: Some((otid, t)),
                ..empty_entry()
            }) && final(self).view() == (HandlerView {
                established: old(self).view().established.insert(id, otid),
                ..old(self).view()
            }),
            outcome matches InitiatorOutcome::Pending(p) ==> final(self).entry(id) == (HandlerEntry {
                initiator: Some((p, otid)),
                ..empty_entry()
            }) && final(self).view() == (HandlerView {
                initiator: old(self).view().initiator.insert(id, otid),
                ..old(self).view()
            }),
            outcome is Failed ==> *final(self) == *old(self),
    {
        let ghost v = self.view();
        let ghost mid: Handler = *self;
        match outcome {
            InitiatorOutcome::Established(session) => {
                self.established_sessions.insert(id, (otid, session));
                assert(self.view().established =~= v.established.insert(id, otid));
                assert(self.view().poker =~= v.poker);
                assert(self.view().initiator =~= v.initiator);
                assert(self.view().responder =~= v.responder);
                proof {
                    let w = self.view();
                    assert(w.established.remove(id) =~= v.established.remove(id));
                    lemma_exclusive_after(v, w, id);
                    assert forall|k: SessionId| k != id implies #[trigger] self.entry(k)
                        == mid.entry(k) by {
                        assert(lookup(self.established_sessions@, k) == lookup(
                            mid.established_sessions@,
                            k,
                        ));
                    }
                }
                true
            },
            InitiatorOutcome::Pending(p) => {
                self.pending_sessions_initiator.insert(id, (p, otid));
                assert(self.view().initiator =~= v.initiator.insert(id, otid));
                assert(self.view().poker =~= v.poker);
                assert(self.view().established =~= v.established);
                assert(self.view().responder =~= v.responder);
                proof {
                    let w = self.view();
                    assert(w.initiator.remove(id) =~= v.initiator.remove(id));
                    lemma_exclusive_after(v, w, id);
                    assert forall|k: SessionId| k != id implies #[trigger] self.entry(k)
                        == mid.entry(k) by {
                        assert(lookup(self.pending_sessions_initiator@, k) == lookup(
                            mid.pending_sessions_initiator@,
                            k,
                        ));
                    }
                }
                false
            },
            InitiatorOutcome::Failed(_) => false,
        }
    }

    /// Routes an incoming datagram to its session and moves the session on. Gives the
    /// session's identifier when the datagram established it.
    pub fn handle_incoming(&mut self, src: PeerAddr, data: &[u8]) -> (r: Result<
        Option<SessionId>,
        HandlerError,
    >)
        requires
            old(self).wf(),
        ensures
            final(self).wf(),
            final(self).spec_keypair() == old(self).spec_keypair(),
            parse_session_packet(data@) is None ==> r == Err::<Option<SessionId>, HandlerError>(
                HandlerError::Malformed,
            ) && *final(self) == *old(self),
            parse_session_packet(data@) matches Some((id, body)) ==> old(self).others_kept(
                final(self),
                id,
            ) && entry_step(old(self).entry(id), id, src, body, final(self).entry(id)),
            parse_session_packet(data@) matches Some((id, _)) ==> {
                &&& r matches Ok(established) && (established is Some ==> established == Some(id))
                    && incoming_step(old(self).view(), final(self).view(), id, established is Some)
            },
            parse_session_packet(data@) matches Some((id, body)) ==> (phase_of(old(self).view(), id) matches Some((p, _))
                ==> incoming_moves(p, body, phase_only(phase_of(final(self).view(), id)))),
            parse_session_packet(data@) matches Some((id, body)) ==> old(
                self,
            ).view().established.contains_key(id) ==> {
                let s = old(self).spec_session(id);
                let t = final(self).spec_session(id);
                &&& t.spec_heartbeat()
                &&& t.spec_dead() == s.spec_dead()
                &&& t.spec_remote_addr() == s.spec_remote_addr()
                &&& t.spec_transport().spec_next_nonce() == s.spec_transport().spec_next_nonce()
                &&& t.spec_transport().spec_opened() == s.spec_transport().spec_opened()
                    && t.spec_inbox() == s.spec_inbox() || exists|plain: Seq<u8>|
                    #![trigger parse_message(plain)]
                    fits_frame(body, s.spec_transport().window(), plain)
                        && t.spec_transport().spec_opened() == s.spec_transport().spec_opened().push(plain)
                        && t.spec_inbox() == s.spec_inbox() + payload_seq(plain)
                &&& (parse_raw(body) matches Some(RawMessageView::Encrypted(e)) && parse_nonced(
                    e,
                ) matches Some((nonce, _)) && window_rejects(s.spec_transport().window(), nonce))
                    ==> t.spec_inbox() == s.spec_inbox()
                &&& t.spec_transport().window() == window_on(
                    s.spec_transport().window(),
                    s.spec_transport().spec_size(),
                    body,
                )
                &&& !is_nonced_body(body) ==> t.spec_transport() == s.spec_transport()
                    && t.spec_inbox() == s.spec_inbox()
            },
    {
        let packet = match SessionPacket::decode(data) {
            Some(p) => p,
            None => return Err(HandlerError::Malformed),
        };
        let id = packet.id;
        let ghost v = self.view();
        let ghost pk = self.pending_sessions_poker@;
        let ghost ini = self.pending_sessions_initiator@;
        let ghost rsp = self.pending_sessions_responder@;
        let ghost est = self.established_sessions@;
        assert(exclusive(v));
        assert(excl_at(v, id));
        assert(pk.contains_key(id) ==> pk[id].0.spec_id() == id);
        assert(ini.contains_key(id) ==> ini[id].0.spec_id() == id);
        assert(rsp.contains_key(id) ==> rsp[id].0.spec_id() == id && rsp[id].0.spec_transport().wf());
        assert(est.contains_key(id) ==> est[id].1.spec_id() == id && est[id].1.spec_transport().wf());
        // poking
        if let Some((mut pending, otid)) = self.pending_sessions_poker.remove(&id) {
            proof {
                let u = self.view();
                assert(u.poker =~= v.poker.remove(id));
                assert(u.poker.remove(id) =~= v.poker.remove(id));
                assert(u.initiator =~= v.initiator);
                assert(u.responder =~= v.responder);
                assert(u.established =~= v.established);
                lemma_exclusive_after(v, u, id);
            }
            pending.handle_incoming(src, &packet);
            if pending.is_ready() {
                let _ = self.file_answer(id, otid, pending.to_responder());
            } else {
                self.pending_sessions_poker.insert(id, (pending, otid));
                assert(self.view().poker =~= v.poker);
            }
            assert(self.view().poker.remove(id) =~= v.poker.remove(id));
            assert(self.view().responder.remove(id) =~= v.responder.remove(id));
            assert(self.view().initiator =~= v.initiator);
            assert(self.view().established =~= v.established);
            proof {
                lemma_exclusive_after(v, self.view(), id);
            }
            return Ok(None);
        }
        // initiating
        if let Some((pending, otid)) = self.pending_sessions_initiator.remove(&id) {
            proof {
                let u = self.view();
                assert(u.initiator =~= v.initiator.remove(id));
                assert(u.initiator.remove(id) =~= v.initiator.remove(id));
                assert(u.poker =~= v.poker);
                assert(u.responder =~= v.responder);
                assert(u.established =~= v.established);
                lemma_exclusive_after(v, u, id);
            }
            let mut pending = pending;
            pending.handle_incoming(src, &packet);
            if pending.is_ready() {
                let established = self.file_initiator_outcome(id, otid, pending.to_session());
                if established {
                    assert(self.view().established =~= v.established.insert(id, otid));
                    assert(self.view().established.remove(id) =~= v.established.remove(id));
                    assert(self.view().initiator.remove(id) =~= v.initiator.remove(id));
                    assert(self.view().poker =~= v.poker);
                    assert(self.view().responder =~= v.responder);
                    return Ok(Some(id));
                }
            } else {
                self.pending_sessions_initiator.insert(id, (pending, otid));
                assert(self.view().initiator =~= v.initiator);
            }
            assert(self.view().initiator.remove(id) =~= v.initiator.remove(id));
            assert(self.view().poker =~= v.poker);
            assert(self.view().responder =~= v.responder);
            assert(self.view().established =~= v.established);
            proof {
                lemma_exclusive_after(v, self.view(), id);
            }
            return Ok(None);
        }
        // responding
        if let Some((pending, otid)) = self.pending_sessions_responder.remove(&id) {
            let mut pending = pending;
            pending.handle_incoming(src, &packet);
            if pending.is_ready() {
                match pending.to_session() {
                    Some(session) => {
                        self.established_sessions.insert(id, (otid, session));
                        assert(self.view().established =~= v.established.insert(id, otid));
                        assert(self.view().established.remove(id) =~= v.established.remove(id));

                        assert(self.view().responder.remove(id) =~= v.responder.remove(id));
                        assert(self.view().poker =~= v.poker);
                        assert(self.view().initiator =~= v.initiator);
                        proof {
                            lemma_exclusive_after(v, self.view(), id);
                        }
                        return Ok(Some(id));
                    },
                    None => {},
                }
            } else {
                self.pending_sessions_responder.insert(id, (pending, otid));
                assert(self.view().responder =~= v.responder);
            }
            assert(self.view().responder.remove(id) =~= v.responder.remove(id));
            assert(self.view().poker =~= v.poker);
            assert(self.view().initiator =~= v.initiator);
            assert(self.view().established =~= v.established);
            proof {
                lemma_exclusive_after(v, self.view(), id);
            }
            return Ok(None);
        }
        // established
        if let Some((otid, session)) = self.established_sessions.remove(&id) {
            let mut session = session;
            session.handle_incoming(&packet);
            self.established_sessions.insert(id, (otid, session));
            assert(self.view().established =~= v.established);
        }
        assert(self.view().poker =~= v.poker);
        assert(self.view().initiator =~= v.initiator);
        assert(self.view().responder =~= v.responder);
        assert(self.view().established =~= v.established);
        Ok(None)
    }

    /// Encrypts `data` for the established session `id`; gives the datagram and where to
    /// send it, or `None` when the payload could not be encrypted.
    pub fn send(&mut self, id: SessionId, data: &[u8]) -> (r: Result<
        Option<(PeerAddr, Vec<u8>)>,
        HandlerError,
    >)
        requires
            old(self).wf(),
        ensures
            final(self).wf(),
            final(self).spec_keypair() == old(self).spec_keypair(),
            old(self).others_kept(final(self), id),
            !old(self).view().established.contains_key(id) ==> *final(self) == *old(self),
            old(self).view().established.contains_key(id) ==> ({
                let s = old(self).spec_session(id);
                let t = final(self).spec_session(id);
                &&& t.spec_id() == s.spec_id()
                &&& t.spec_remote_addr() == s.spec_remote_addr()
                &&& t.spec_inbox() == s.spec_inbox()
                &&& t.spec_dead() == s.spec_dead()
                &&& t.spec_heartbeat() == s.spec_heartbeat()
                &&& t.spec_transport().window() == s.spec_transport().window()
                &&& t.spec_transport().spec_size() == s.spec_transport().spec_size()
                &&& r matches Ok(Some(_)) ==> t.spec_transport().spec_sealed()
                    == s.spec_transport().spec_sealed().push(
                    encode_message(MessageView::Payload(data@)),
                )
                &&& r matches Ok(None) ==> t.spec_transport().spec_sealed()
                    == s.spec_transport().spec_sealed()
            }),
            final(self).view() == old(self).view(),
            r == Err::<Option<(PeerAddr, Vec<u8>)>, HandlerError>(HandlerError::NotEstablished)
                <==> !old(self).view().established.contains_key(id),
            old(self).view().established.contains_key(id) ==> {
                let s = old(self).spec_session(id);
                &&& s.spec_dead() ==> r == Err::<Option<(PeerAddr, Vec<u8>)>, HandlerError>(
                    HandlerError::Disconnected,
                )
                &&& !s.spec_dead() ==> r is Ok && final(self).spec_session(id).spec_transport().spec_next_nonce()
                    == next_after_send(s.spec_transport().spec_next_nonce())
                &&& !s.spec_dead() && (s.spec_transport().spec_next_nonce() == u64::MAX
                    || encode_message(MessageView::Payload(data@)).len() + 16 > 65535) ==> r == Ok::<
                    Option<(PeerAddr, Vec<u8>)>,
                    HandlerError,
                >(None)
                &&& r matches Ok(Some((addr, b))) ==> addr == s.spec_remote_addr() && exists|
                    frame: Seq<u8>,
                |
                    {
                        &&& b@ == packet_bytes(id, RawMessageView::Encrypted(frame))
                        &&& parse_nonced(frame) matches Some((nonce, ct)) && nonce
                            == s.spec_transport().spec_next_nonce() && ct.len() == encode_message(
                            MessageView::Payload(data@),
                        ).len() + 16
                    }
            },
    {
        let ghost v = self.view();
        if !self.established_sessions.contains_key(&id) {
            return Err(HandlerError::NotEstablished);
        }
        let (otid, mut session) = match self.established_sessions.remove(&id) {
            Some(e) => e,
            None => {
                return Err(HandlerError::NotEstablished);
            },
        };
        let addr = session.remote_addr();
        let result = session.send(data);
        self.established_sessions.insert(id, (otid, session));
        proof {
            assert forall|k: SessionId| k != id implies #[trigger] self.entry(k) == old(self).entry(k) by {
                assert(lookup(self.established_sessions@, k) == lookup(old(self).established_sessions@, k));
            }
        }
        assert(self.view().established =~= v.established);
        match result {
            Ok(Some(bytes)) => Ok(Some((addr, bytes))),
            Ok(None) => Ok(None),
            Err(_) => Err(HandlerError::Disconnected),
        }
    }

    /// The next payload of the established session `id`: `None` when there is no such
    /// session or it has died (a dead session is then dropped); otherwise the oldest
    /// payload received, if any.
    pub fn recv_from(&mut self, id: SessionId) -> (r: Option<Option<Vec<u8>>>)
        requires
            old(self).wf(),
        ensures
            final(self).wf(),
            final(self).spec_keypair() == old(self).spec_keypair(),
            old(self).others_kept(final(self), id),
            !old(self).view().established.contains_key(id) ==> *final(self) == *old(self),
            old(self).view().established.contains_key(id) && !old(self).spec_session(id).spec_dead() ==> ({
                let s = old(self).spec_session(id);
                let t = final(self).spec_session(id);
                &&& s.spec_inbox().len() == 0 ==> t == s
                &&& s.spec_inbox().len() > 0 ==> {
                    &&& t.spec_inbox() == s.spec_inbox().drop_first()
                    &&& t.spec_id() == s.spec_id()
                    &&& t.spec_remote_addr() == s.spec_remote_addr()
                    &&& t.spec_dead() == s.spec_dead()
                    &&& t.spec_heartbeat() == s.spec_heartbeat()
                    &&& t.spec_transport() == s.spec_transport()
                }
            }),
            !old(self).view().established.contains_key(id) ==> r is None && final(self).view()
                == old(self).view(),
            old(self).view().established.contains_key(id) ==> {
                let s = old(self).spec_session(id);
                &&& s.spec_dead() ==> r is None && final(self).view() == (HandlerView {
                    established: old(self).view().established.remove(id),
                    ..old(self).view()
                })
                &&& !s.spec_dead() ==> final(self).view() == old(self).view() && (r matches Some(
                    m,
                ) && (s.spec_inbox().len() == 0 ==> m is None) && (s.spec_inbox().len() > 0 ==> (
                m matches Some(b) && b@ == s.spec_inbox()[0])))
            },
    {
        let ghost v = self.view();
        if !self.established_sessions.contains_key(&id) {
            return None;
        }
        let (otid, mut session) = match self.established_sessions.remove(&id) {
            Some(e) => e,
            None => {
                return None;
            },
        };
        if session.is_dead() {
            assert(self.view().established =~= v.established.remove(id));
            proof {
                let w = self.view();
                assert(excl_at(v, id));
                assert(w.poker =~= v.poker);
                assert(w.initiator =~= v.initiator);
                assert(w.responder =~= v.responder);
                assert(w.established.remove(id) =~= v.established.remove(id));
                lemma_exclusive_after(v, w, id);
            }
            return None;
        }
        let result = session.try_recv();
        self.established_sessions.insert(id, (otid, session));
        proof {
            assert forall|k: SessionId| k != id implies #[trigger] self.entry(k) == old(self).entry(k) by {
                assert(lookup(self.established_sessions@, k) == lookup(old(self).established_sessions@, k));
            }
        }
        assert(self.view().established =~= v.established);
        match result {
            Ok(m) => Some(m),
            Err(_) => None,
        }
    }

    /// Where the established session `id` sends to.
    pub fn remote_addr(&self, id: SessionId) -> (r: Option<PeerAddr>)
        requires
            self.wf(),
        ensures
            r is Some <==> self.view().established.contains_key(id),
            r matches Some(a) ==> a == self.spec_session(id).spec_remote_addr(),
    {
        match self.established_sessions.get(&id) {
            Some(entry) => Some(entry.1.remote_addr()),
            None => None,
        }
    }

    /// The handshake datagrams to repeat for session `id`: pokes, initiations or the
    /// response, by phase; nothing for an established or unknown session.
    pub fn pending_packets(&self, id: SessionId) -> (r: Vec<(PeerAddr, Vec<u8>)>)
        requires
            self.wf(),
        ensures
            !self.view().poker.contains_key(id) && !self.view().initiator.contains_key(id)
                && !self.view().responder.contains_key(id) ==> r@.len() == 0,
            self.view().poker.contains_key(id) ==> {
                let a = self.spec_poker(id).spec_addresses();
                &&& r@.len() == a.len()
                &&& forall|i: int|
                    0 <= i < r@.len() ==> (#[trigger] r@[i]).0 == a[i] && r@[i].1@ == packet_bytes(
                        id,
                        RawMessageView::HandshakePoke,
                    )
            },
            self.view().initiator.contains_key(id) ==> {
                let p = self.spec_initiator(id);
                &&& r@.len() == p.spec_addresses().len()
                &&& forall|i: int|
                    0 <= i < r@.len() ==> (#[trigger] r@[i]).0 == p.spec_addresses()[i]
                        && r@[i].1@ == packet_bytes(
                        id,
                        RawMessageView::HandshakeInitiation(p.spec_initiation()),
                    )
            },
            self.view().responder.contains_key(id) ==> {
                let p = self.spec_responder(id);
                &&& r@.len() == 1
                &&& r@[0].0 == p.spec_remote_addr()
                &&& r@[0].1@ == packet_bytes(id, RawMessageView::HandshakeResponse(p.spec_response()))
            },
    {
        assert(excl_at(self.view(), id));
        assert(self.view().poker.contains_key(id) <==> self.pending_sessions_poker@.contains_key(id));
        assert(self.view().initiator.contains_key(id) <==> self.pending_sessions_initiator@.contains_key(id));
        if let Some(entry) = self.pending_sessions_poker.get(&id) {
            return entry.0.poke_packets();
        }
        if let Some(entry) = self.pending_sessions_initiator.get(&id) {
            return entry.0.initiation_packets();
        }
        if let Some(entry) = self.pending_sessions_responder.get(&id) {
            let mut v: Vec<(PeerAddr, Vec<u8>)> = Vec::new();
            v.push(entry.0.response_packet());
            return v;
        }
        Vec::new()
    }

    /// The keepalive datagram of the established session `id`, and where to send it.
    pub fn keepalive(&mut self, id: SessionId) -> (r: Option<(PeerAddr, Vec<u8>)>)
        requires
            old(self).wf(),
        ensures
            final(self).wf(),
            final(self).spec_keypair() == old(self).spec_keypair(),
            old(self).others_kept(final(self), id),
            !old(self).view().established.contains_key(id) ==> *final(self) == *old(self),
            old(self).view().established.contains_key(id) ==> ({
                let s = old(self).spec_session(id);
                let t = final(self).spec_session(id);
                &&& t.spec_id() == s.spec_id()
                &&& t.spec_remote_addr() == s.spec_remote_addr()
                &&& t.spec_inbox() == s.spec_inbox()
                &&& t.spec_dead() == s.spec_dead()
                &&& t.spec_heartbeat() == s.spec_heartbeat()
                &&& t.spec_transport().window() == s.spec_transport().window()
                &&& t.spec_transport().spec_size() == s.spec_transport().spec_size()
                &&& r is Some ==> t.spec_transport().spec_sealed()
                    == s.spec_transport().spec_sealed().push(encode_message(MessageView::Keepalive))
                &&& r is None ==> t.spec_transport().spec_sealed()
                    == s.spec_transport().spec_sealed()
            }),
            final(self).view() == old(self).view(),
            !old(self).view().established.contains_key(id) ==> r is None,
            old(self).view().established.contains_key(id) ==> {
                let s = old(self).spec_session(id);
                &&& final(self).spec_session(id).spec_transport().spec_next_nonce() == next_after_send(
                    s.spec_transport().spec_next_nonce(),
                )
                &&& s.spec_transport().spec_next_nonce() == u64::MAX ==> r is None
                &&& r matches Some((a, b)) ==> a == s.spec_remote_addr() && exists|frame: Seq<u8>|
                    {
                        &&& b@ == packet_bytes(id, RawMessageView::Encrypted(frame))
                        &&& parse_nonced(frame) matches Some((nonce, ct)) && nonce
                            == s.spec_transport().spec_next_nonce() && ct.len() == encode_message(
                            MessageView::Keepalive,
                        ).len() + 16
                    }
            },
    {
        let ghost v = self.view();
        if !self.established_sessions.contains_key(&id) {
            return None;
        }
        let (otid, mut session) = match self.established_sessions.remove(&id) {
            Some(e) => e,
            None => {
                return None;
            },
        };
        let addr = session.remote_addr();
        let result = session.keepalive();
        self.established_sessions.insert(id, (otid, session));
        proof {
            assert forall|k: SessionId| k != id implies #[trigger] self.entry(k) == old(self).entry(k) by {
                assert(lookup(self.established_sessions@, k) == lookup(old(self).established_sessions@, k));
            }
        }
        assert(self.view().established =~= v.established);
        match result {
            Some(bytes) => Some((addr, bytes)),
            None => None,
        }
    }

    /// One liveness check of the established session `id`; gives whether it is still
    /// alive, or `None` for an unknown session.
    pub fn check_alive(&mut self, id: SessionId) -> (r: Option<bool>)
        requires
            old(self).wf(),
        ensures
            final(self).wf(),
            final(self).spec_keypair() == old(self).spec_keypair(),
            old(self).others_kept(final(self), id),
            !old(self).view().established.contains_key(id) ==> *final(self) == *old(self),
            old(self).view().established.contains_key(id) ==> ({
                let s = old(self).spec_session(id);
                let t = final(self).spec_session(id);
                &&& (t.spec_heartbeat(), t.spec_dead()) == liveness_check(s.spec_heartbeat(), s.spec_dead())
                &&& t.spec_id() == s.spec_id()
                &&& t.spec_remote_addr() == s.spec_remote_addr()
                &&& t.spec_inbox() == s.spec_inbox()
                &&& t.spec_transport() == s.spec_transport()
            }),
            final(self).view() == old(self).view(),
            r is Some <==> old(self).view().established.contains_key(id),
            r matches Some(alive) ==> alive == old(self).spec_session(id).spec_heartbeat(),
    {
        let ghost v = self.view();
        if !self.established_sessions.contains_key(&id) {
            return None;
        }
        let (otid, mut session) = match self.established_sessions.remove(&id) {
            Some(e) => e,
            None => {
                return None;
            },
        };
        let alive = session.check_alive();
        self.established_sessions.insert(id, (otid, session));
        proof {
            assert forall|k: SessionId| k != id implies #[trigger] self.entry(k) == old(self).entry(k) by {
                assert(lookup(self.established_sessions@, k) == lookup(old(self).established_sessions@, k));
            }
        }
        assert(self.view().established =~= v.established);
        Some(alive)
    }

    /// Whether the established session `id` has died; `None` for an unknown session.
    pub fn is_dead(&self, id: SessionId) -> (r: Option<bool>)
        requires
            self.wf(),
        ensures
            r is Some <==> self.view().established.contains_key(id),
            r matches Some(d) ==> d == self.spec_session(id).spec_dead(),
    {
        match self.established_sessions.get(&id) {
            Some(entry) => Some(entry.1.is_dead()),
            None => None,
        }
    }
}

} // verus!
