//! Packets of the congestion-aware layout: payload indices, fragments of large payloads,
//! and congestion reports with their acknowledgements.
use vstd::prelude::*;

verus! {

/// A packet: the session it belongs to and what it carries.
pub struct UdppPacket {
    pub session_id: u128,
    pub payload: UdppPayload,
}

impl UdppPacket {
    /// A handshake packet of session `session_id`.
    pub fn handshake(session_id: u128, data: Vec<u8>) -> (p: UdppPacket)
        ensures
            p.session_id == session_id,
            p.payload matches UdppPayload::Handshake(d) && d@ == data@,
    {
        UdppPacket { session_id, payload: UdppPayload::Handshake(data) }
    }
}

/// A handshake message, or an encrypted [`CleartextPayload`].
pub enum UdppPayload {
    Handshake(Vec<u8>),
    Encrypted(Vec<u8>),
}

/// What an encrypted payload holds: its index in the session, and its content.
pub struct CleartextPayload {
    pub index: u64,
    pub content: UdppContent,
}

/// A congestion message, or one fragment of a larger payload.
pub enum UdppContent {
    Congestion(UdppCongestionMessage),
    DataFragment { group_index: u64, fragment_index: u64, number_of_fragments: u64, payload: Vec<u8> },
}

/// A congestion report under an identifier, or the acknowledgement of one.
pub enum UdppCongestionMessage {
    CongestionInformation(u128, CongestionReport),
    CongestionAcknowledgement(u128),
}

/// How many packets were accepted among the indices from `start_index` to `end_index`.
pub struct CongestionReport {
    start_index: u64,
    end_index: u64,
    number_accepted: u64,
}

impl CongestionReport {
    pub closed spec fn spec_start(&self) -> u64 {
        self.start_index
    }

    pub closed spec fn spec_end(&self) -> u64 {
        self.end_index
    }

    pub closed spec fn spec_accepted(&self) -> u64 {
        self.number_accepted
    }

    pub fn new(start_index: u64, end_index: u64, number_accepted: u64) -> (r: CongestionReport)
        ensures
            r.spec_start() == start_index,
            r.spec_end() == end_index,
            r.spec_accepted() == number_accepted,
    {
        CongestionReport { start_index, end_index, number_accepted }
    }

    /// The accepted packets against the width of the reported range.
    pub fn ratio(&self) -> (r: (u64, u64))
        requires
            self.spec_start() <= self.spec_end(),
        ensures
            r.0 == self.spec_accepted(),
            r.1 == self.spec_end() - self.spec_start(),
    {
        (self.number_accepted, self.end_index - self.start_index)
    }
}

} // verus!
