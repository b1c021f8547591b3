//! Splitting payloads into numbered chunks and putting them back together.
//!
//! A payload sent through a [`Chunker`] is cut into pieces of at most `chunk_size`
//! bytes. Every piece travels as a [`ChunkedData`] frame that names the group (one
//! group per payload), the piece's index and the number of pieces in the group. The
//! receiving side files each frame under its group and, once every piece of a group
//! has arrived, joins the pieces in index order and queues the payload.
use crate::wire::{
    copy_range, encode_bytes, le8, lemma_parse_bytes_encoded, lemma_parse_bytes_prefix, lemma_parse_u64_encoded,
    lemma_parse_u64_prefix, parse_bytes, parse_u64, read_bytes, read_u64, write_bytes, write_raw,
    write_u64,
};
use std::collections::HashMap;
use std::collections::VecDeque;
use vstd::prelude::*;

verus! {

broadcast use vstd::std_specs::hash::group_hash_axioms;

// ---------------------------------------------------------------------------
// Frames
// ---------------------------------------------------------------------------

/// One piece of a payload, with the coordinates needed to put it back in place.
pub struct ChunkedData {
    pub group: u64,
    pub index: u64,
    pub group_length: u64,
    pub data: Vec<u8>,
}

/// The mathematical content of a frame.
pub struct ChunkView {
    pub group: u64,
    pub index: u64,
    pub group_length: u64,
    pub data: Seq<u8>,
}

impl View for ChunkedData {
    type V = ChunkView;

    open spec fn view(&self) -> ChunkView {
        ChunkView {
            group: self.group,
            index: self.index,
            group_length: self.group_length,
            data: self.data@,
        }
    }
}

/// The bytes of a frame: group, index and group length as eight-byte integers, then the
/// piece as a byte string.
pub open spec fn encode_chunk(c: ChunkView) -> Seq<u8> {
    le8(c.group) + le8(c.index) + le8(c.group_length) + encode_bytes(c.data)
}

/// Reads a frame; bytes after the frame are ignored.
pub open spec fn parse_chunk(s: Seq<u8>) -> Option<ChunkView> {
    match parse_u64(s) {
        Some((group, r1)) => match parse_u64(r1) {
            Some((index, r2)) => match parse_u64(r2) {
                Some((group_length, r3)) => match parse_bytes(r3) {
                    Some((data, _)) => Some(
                        ChunkView { group, index, group_length, data },
                    ),
                    None => None,
                },
                None => None,
            },
            None => None,
        },
        None => None,
    }
}

/// Decoding an encoded frame, with anything after it, gives the frame back.
pub proof fn lemma_chunk_roundtrip(c: ChunkView, rest: Seq<u8>)
    requires
        c.data.len() <= u64::MAX,
    ensures
        parse_chunk(encode_chunk(c) + rest) == Some(c),
{
    let tail = encode_bytes(c.data) + rest;
    lemma_parse_bytes_encoded(c.data, rest);
    lemma_parse_u64_encoded(c.group_length, tail);
    lemma_parse_u64_encoded(c.index, le8(c.group_length) + tail);
    lemma_parse_u64_encoded(c.group, le8(c.index) + (le8(c.group_length) + tail));
    assert(encode_chunk(c) + rest =~= le8(c.group) + (le8(c.index) + (le8(c.group_length)
        + tail)));
}

/// Whatever decodes as a frame starts with that frame's encoding.
pub proof fn lemma_chunk_prefix(s: Seq<u8>)
    ensures
        parse_chunk(s) matches Some(c) ==> exists|rest: Seq<u8>| s == encode_chunk(c) + rest,
{
    if let Some(c) = parse_chunk(s) {
        lemma_parse_u64_prefix(s);
        let r1 = parse_u64(s).unwrap().1;
        lemma_parse_u64_prefix(r1);
        let r2 = parse_u64(r1).unwrap().1;
        lemma_parse_u64_prefix(r2);
        let r3 = parse_u64(r2).unwrap().1;
        lemma_parse_bytes_prefix(r3);
        let rest = parse_bytes(r3).unwrap().1;
        assert(s =~= encode_chunk(c) + rest);
    }
}

impl ChunkedData {
    /// The frame's bytes.
    pub fn encode(&self) -> (r: Vec<u8>)
        ensures
            r@ == encode_chunk(self@),
    {
        let mut out: Vec<u8> = Vec::new();
        write_u64(&mut out, self.group);
        write_u64(&mut out, self.index);
        write_u64(&mut out, self.group_length);
        write_bytes(&mut out, self.data.as_slice());
        assert(out@ =~= encode_chunk(self@));
        out
    }

    /// Reads a frame from the front of `bytes`.
    pub fn decode(bytes: &[u8]) -> (r: Option<ChunkedData>)
        ensures
            match r {
                Some(c) => parse_chunk(bytes@) == Some(c@),
                None => parse_chunk(bytes@) is None,
            },
    {
        assert(bytes@.skip(0) =~= bytes@);
        let (group, p1) = match read_u64(bytes, 0) {
            Some(x) => x,
            None => return None,
        };
        let (index, p2) = match read_u64(bytes, p1) {
            Some(x) => x,
            None => return None,
        };
        let (group_length, p3) = match read_u64(bytes, p2) {
            Some(x) => x,
            None => return None,
        };
        let (data, _p4) = match read_bytes(bytes, p3) {
            Some(x) => x,
            None => return None,
        };
        Some(ChunkedData { group, index, group_length, data })
    }
}

// ---------------------------------------------------------------------------
// Slots of a group
// ---------------------------------------------------------------------------

/// The number of filled slots.
pub open spec fn count_filled(s: Seq<Option<Seq<u8>>>) -> nat
    decreases s.len(),
{
    if s.len() == 0 {
        0
    } else {
        count_filled(s.drop_last()) + if s.last() is Some {
            1nat
        } else {
            0nat
        }
    }
}

/// Every slot is filled.
pub open spec fn all_filled(s: Seq<Option<Seq<u8>>>) -> bool {
    forall|i: int| 0 <= i < s.len() ==> (#[trigger] s[i]) is Some
}

/// The pieces of the filled slots, in slot order, joined.
pub open spec fn join_slots(s: Seq<Option<Seq<u8>>>) -> Seq<u8> {
    s.map_values(|o: Option<Seq<u8>>| o.unwrap()).flatten()
}

/// `n` empty slots.
pub open spec fn empty_slots(n: nat) -> Seq<Option<Seq<u8>>> {
    Seq::new(n, |i: int| None)
}

pub proof fn lemma_count_filled_bound(s: Seq<Option<Seq<u8>>>)
    ensures
        count_filled(s) <= s.len(),
        count_filled(s) == s.len() <==> all_filled(s),
    decreases s.len(),
{
    if s.len() > 0 {
        lemma_count_filled_bound(s.drop_last());
        if all_filled(s) {
            assert forall|i: int| 0 <= i < s.drop_last().len() implies (
            #[trigger] s.drop_last()[i]) is Some by {
                assert(s[i] is Some);
            }
        }
        if all_filled(s.drop_last()) && s.last() is Some {
            assert forall|i: int| 0 <= i < s.len() implies (#[trigger] s[i]) is Some by {
                if i < s.len() - 1 {
                    assert(s.drop_last()[i] is Some);
                }
            }
        }
    }
}

pub proof fn lemma_count_filled_update(s: Seq<Option<Seq<u8>>>, i: int, x: Seq<u8>)
    requires
        0 <= i < s.len(),
        s[i] is None,
    ensures
        count_filled(s.update(i, Some(x))) == count_filled(s) + 1,
    decreases s.len(),
{
    let t = s.update(i, Some(x));
    if i == s.len() - 1 {
        assert(t.drop_last() =~= s.drop_last());
    } else {
        lemma_count_filled_update(s.drop_last(), i, x);
        assert(t.drop_last() =~= s.drop_last().update(i, Some(x)));
    }
}

pub proof fn lemma_count_filled_empty(n: nat)
    ensures
        count_filled(empty_slots(n)) == 0,
    decreases n,
{
    if n > 0 {
        lemma_count_filled_empty((n - 1) as nat);
        assert(empty_slots(n).drop_last() =~= empty_slots((n - 1) as nat));
    }
}

/// The slots `s` after the pieces `ps` have been put, in order, into the slots named by
/// `idx`.
pub open spec fn fill_slots(s: Seq<Option<Seq<u8>>>, idx: Seq<u64>, ps: Seq<Seq<u8>>) -> Seq<
    Option<Seq<u8>>,
>
    decreases idx.len(),
{
    if idx.len() == 0 || ps.len() == 0 {
        s
    } else {
        fill_slots(s.update(idx[0] as int, Some(ps[0])), idx.drop_first(), ps.drop_first())
    }
}

proof fn lemma_fill_count(s: Seq<Option<Seq<u8>>>, idx: Seq<u64>, ps: Seq<Seq<u8>>)
    requires
        idx.len() == ps.len(),
        forall|i: int| 0 <= i < idx.len() ==> (#[trigger] idx[i]) < s.len(),
        forall|i: int| 0 <= i < idx.len() ==> s[#[trigger] idx[i] as int] is None,
        forall|i: int, j: int| 0 <= i < j < idx.len() ==> idx[i] != idx[j],
    ensures
        count_filled(fill_slots(s, idx, ps)) == count_filled(s) + idx.len(),
        fill_slots(s, idx, ps).len() == s.len(),
    decreases idx.len(),
{
    if idx.len() > 0 {
        let s1 = s.update(idx[0] as int, Some(ps[0]));
        lemma_count_filled_update(s, idx[0] as int, ps[0]);
        let rest = idx.drop_first();
        assert forall|i: int| 0 <= i < rest.len() implies (#[trigger] rest[i]) < s1.len() by {
            assert(rest[i] == idx[i + 1]);
        }
        assert forall|i: int| 0 <= i < rest.len() implies s1[#[trigger] rest[i] as int] is None by {
            assert(rest[i] == idx[i + 1]);
            assert(idx[0] != idx[i + 1]);
        }
        assert forall|i: int, j: int| 0 <= i < j < rest.len() implies rest[i] != rest[j] by {
            assert(rest[i] == idx[i + 1] && rest[j] == idx[j + 1]);
        }
        lemma_fill_count(s1, rest, ps.drop_first());
    }
}

/// A group of `n` slots into which pieces are put under distinct indices below `n`
/// counts exactly the pieces put, and is complete (every slot filled) exactly when `n`
/// pieces have been put. Since [`ChunkGroup::add_chunk`] counts each piece it puts, its
/// count is then the number of filled slots, and [`ChunkGroup::is_complete`] says
/// whether every slot is filled.
pub proof fn lemma_group_count(n: nat, idx: Seq<u64>, ps: Seq<Seq<u8>>)
    requires
        idx.len() == ps.len(),
        forall|i: int| 0 <= i < idx.len() ==> (#[trigger] idx[i]) < n,
        forall|i: int, j: int| 0 <= i < j < idx.len() ==> idx[i] != idx[j],
    ensures
        count_filled(fill_slots(empty_slots(n), idx, ps)) == idx.len(),
        all_filled(fill_slots(empty_slots(n), idx, ps)) <==> idx.len() == n,
{
    lemma_count_filled_empty(n);
    lemma_fill_count(empty_slots(n), idx, ps);
    lemma_count_filled_bound(fill_slots(empty_slots(n), idx, ps));
}

// ---------------------------------------------------------------------------
// ChunkGroup
// ---------------------------------------------------------------------------

/// The pieces of one payload received so far.
pub struct ChunkGroup {
    chunks: Vec<Option<ChunkedData>>,
    size: u64,
    group_length: u64,
}

impl ChunkGroup {
    /// The pieces held in each slot.
    pub closed spec fn slots(&self) -> Seq<Option<Seq<u8>>> {
        self.chunks@.map_values(
            |c: Option<ChunkedData>|
                match c {
                    Some(c) => Some(c.data@),
                    None => None,
                },
        )
    }

    /// The number of pieces added so far.
    pub closed spec fn spec_size(&self) -> u64 {
        self.size
    }

    /// The number of pieces the payload was cut into.
    pub closed spec fn spec_group_length(&self) -> u64 {
        self.group_length
    }

    /// There is one slot for each piece.
    pub open spec fn wf(&self) -> bool {
        self.slots().len() == self.spec_group_length()
    }

    /// An empty group for a payload of `group_length` pieces.
    pub fn new(group_length: u64) -> (g: ChunkGroup)
        requires
            group_length <= usize::MAX,
        ensures
            g.wf(),
            g.slots() == empty_slots(group_length as nat),
            g.spec_size() == 0,
            g.spec_size() == count_filled(g.slots()),
            g.spec_group_length() == group_length,
    {
        let mut chunks: Vec<Option<ChunkedData>> = Vec::new();
        let n = group_length as usize;
        let mut i: usize = 0;
        while i < n
            invariant
                i <= n,
                n == group_length,
                chunks@.len() == i,
                forall|j: int| 0 <= j < i ==> (#[trigger] chunks@[j]) is None,
            decreases n - i,
        {
            chunks.push(None);
            i = i + 1;
        }
        let g = ChunkGroup { chunks, size: 0, group_length };
        assert(g.slots() =~= empty_slots(group_length as nat));
        proof {
            lemma_count_filled_empty(group_length as nat);
        }
        g
    }

    /// Puts `chunk` into the slot of its index, replacing what was there, and counts it.
    pub fn add_chunk(&mut self, chunk: ChunkedData)
        requires
            old(self).wf(),
            chunk.index < old(self).spec_group_length(),
            old(self).spec_size() < u64::MAX,
        ensures
            final(self).wf(),
            final(self).slots() == old(self).slots().update(chunk.index as int, Some(chunk.data@)),
            final(self).spec_size() == old(self).spec_size() + 1,
            final(self).spec_group_length() == old(self).spec_group_length(),
            old(self).spec_size() == count_filled(old(self).slots()) && old(self).slots()[chunk.index as int] is None
                ==> final(self).spec_size() == count_filled(final(self).slots()),
    {
        assert(self.slots().len() == self.chunks@.len());
        let n = self.chunks.len();
        assert(chunk.index < n);
        let idx = chunk.index as usize;
        assert(idx as int == chunk.index as int);
        let ghost d = chunk.data@;
        self.chunks.remove(idx);
        self.chunks.insert(idx, Some(chunk));
        self.size = self.size + 1;
        assert(self.slots() =~= old(self).slots().update(idx as int, Some(d)));
        proof {
            if old(self).slots()[idx as int] is None {
                lemma_count_filled_update(old(self).slots(), idx as int, d);
            }
        }
    }

    /// Every piece has been counted.
    pub fn is_complete(&self) -> (r: bool)
        ensures
            r == (self.spec_size() == self.spec_group_length()),
            self.wf() && self.spec_size() == count_filled(self.slots()) ==> (r <==> all_filled(
                self.slots(),
            )),
    {
        proof {
            lemma_count_filled_bound(self.slots());
        }
        self.size == self.group_length
    }

    /// The payload: the pieces joined in index order.
    pub fn collect(self) -> (r: Vec<u8>)
        requires
            all_filled(self.slots()),
        ensures
            r@ == join_slots(self.slots()),
    {
        let ghost slots = self.slots();
        let ghost pieces = slots.map_values(|o: Option<Seq<u8>>| o.unwrap());
        let mut output: Vec<u8> = Vec::new();
        let chunks = self.chunks;
        let mut i: usize = 0;
        while i < chunks.len()
            invariant
                i <= chunks@.len(),
                slots.len() == chunks@.len(),
                pieces.len() == chunks@.len(),
                all_filled(slots),
                forall|j: int|
                    0 <= j < chunks@.len() ==> slots[j] == match #[trigger] chunks@[j] {
                        Some(c) => Some(c.data@),
                        None => None,
                    },
                forall|j: int| 0 <= j < pieces.len() ==> #[trigger] pieces[j] == slots[j].unwrap(),
                output@ == pieces.take(i as int).flatten(),
            decreases chunks@.len() - i,
        {
            assert(slots[i as int] is Some);
            match &chunks[i] {
                Some(c) => {
                    write_raw(&mut output, c.data.as_slice());
                },
                None => {},
            }
            proof {
                pieces.take(i as int).lemma_flatten_push(pieces[i as int]);
                assert(pieces.take(i as int).push(pieces[i as int]) =~= pieces.take(i + 1));
            }
            i = i + 1;
        }
        assert(pieces.take(i as int) =~= pieces);
        output
    }
}


// ---------------------------------------------------------------------------
// Cutting a payload into pieces
// ---------------------------------------------------------------------------

/// The pieces of `data` of at most `cs` bytes each, in order; only the last may be shorter.
pub open spec fn pieces(data: Seq<u8>, cs: nat) -> Seq<Seq<u8>>
    decreases data.len(),
{
    if data.len() == 0 || cs == 0 {
        seq![]
    } else if data.len() <= cs {
        seq![data]
    } else {
        seq![data.take(cs as int)] + pieces(data.skip(cs as int), cs)
    }
}

/// The frames that carry `data` as group `group`, cut into pieces of at most `cs` bytes.
pub open spec fn chunk_views(group: u64, data: Seq<u8>, cs: nat) -> Seq<ChunkView> {
    let p = pieces(data, cs);
    Seq::new(
        p.len(),
        |i: int| ChunkView { group, index: i as u64, group_length: p.len() as u64, data: p[i] },
    )
}

/// The bytes of the frames that carry `data` as group `group`.
pub open spec fn frame_bytes(group: u64, data: Seq<u8>, cs: nat) -> Seq<Seq<u8>> {
    chunk_views(group, data, cs).map_values(|c: ChunkView| encode_chunk(c))
}

pub proof fn lemma_pieces(data: Seq<u8>, cs: nat)
    requires
        cs > 0,
    ensures
        pieces(data, cs).flatten() == data,
        pieces(data, cs).len() <= data.len(),
        data.len() > 0 ==> pieces(data, cs).len() > 0,
        forall|i: int| 0 <= i < pieces(data, cs).len() ==> (#[trigger] pieces(data, cs)[i]).len() <= cs,
    decreases data.len(),
{
    if data.len() == 0 {
    } else if data.len() <= cs {
        seq![data].lemma_flatten_one_element();
    } else {
        let rest = data.skip(cs as int);
        lemma_pieces(rest, cs);
        let p = pieces(data, cs);
        assert(p.drop_first() =~= pieces(rest, cs));
        assert(p.flatten() == p.first() + p.drop_first().flatten());
        assert(data =~= data.take(cs as int) + rest);
        assert forall|i: int| 0 <= i < p.len() implies (#[trigger] p[i]).len() <= cs by {
            if i > 0 {
                assert(p[i] == pieces(rest, cs)[i - 1]);
            }
        }
    }
}

/// Taking one piece off the front of a non-empty payload.
pub proof fn lemma_pieces_step(data: Seq<u8>, cs: nat)
    requires
        cs > 0,
        data.len() > 0,
    ensures
        ({
            let m = if data.len() <= cs {
                data.len() as int
            } else {
                cs as int
            };
            pieces(data, cs) == seq![data.take(m)] + pieces(data.skip(m), cs)
        }),
{
    if data.len() <= cs {
        assert(data.skip(data.len() as int).len() == 0);
        assert(data.take(data.len() as int) =~= data);
        assert(seq![data] =~= seq![data] + Seq::<Seq<u8>>::empty());
    }
}

// ---------------------------------------------------------------------------
// Chunker
// ---------------------------------------------------------------------------

/// What a [`Chunker`] holds: the piece size, the number of the next group to send, the
/// slots of each group being received, and the payloads received in full, oldest first.
pub struct ChunkerView {
    pub chunk_size: u64,
    pub current_group: u64,
    pub groups: Map<u64, Seq<Option<Seq<u8>>>>,
    pub completed: Seq<Seq<u8>>,
}

/// The slots that frame `c` lands in: those of its group, or fresh ones.
pub open spec fn slots_for(groups: Map<u64, Seq<Option<Seq<u8>>>>, c: ChunkView) -> Seq<
    Option<Seq<u8>>,
> {
    if groups.contains_key(c.group) {
        groups[c.group]
    } else {
        empty_slots(c.group_length as nat)
    }
}

/// Frame `c` can be taken in: its index names an empty slot of its group.
pub open spec fn accepts(v: ChunkerView, c: ChunkView) -> bool {
    let slots = slots_for(v.groups, c);
    &&& c.index < slots.len()
    &&& slots[c.index as int] is None
    &&& !v.groups.contains_key(c.group) ==> c.group_length <= usize::MAX
}

/// Taking in frame `c`: its piece fills its slot; a group whose slots are all filled
/// leaves the table and its joined pieces are queued.
pub open spec fn receive_step(v: ChunkerView, c: ChunkView) -> ChunkerView {
    let filled = slots_for(v.groups, c).update(c.index as int, Some(c.data));
    if all_filled(filled) {
        ChunkerView {
            groups: v.groups.remove(c.group),
            completed: v.completed.push(join_slots(filled)),
            ..v
        }
    } else {
        ChunkerView { groups: v.groups.insert(c.group, filled), ..v }
    }
}

/// Taking in a sequence of frames, in order.
pub open spec fn receive_all(v: ChunkerView, cs: Seq<ChunkView>) -> ChunkerView
    decreases cs.len(),
{
    if cs.len() == 0 {
        v
    } else {
        receive_all(receive_step(v, cs[0]), cs.drop_first())
    }
}

/// Every frame of the sequence can be taken in when its turn comes.
pub open spec fn all_accepted(v: ChunkerView, cs: Seq<ChunkView>) -> bool
    decreases cs.len(),
{
    cs.len() == 0 || (accepts(v, cs[0]) && all_accepted(receive_step(v, cs[0]), cs.drop_first()))
}

/// The first `k` of the slots for pieces `p` are filled.
pub open spec fn partial_slots(p: Seq<Seq<u8>>, k: nat) -> Seq<Option<Seq<u8>>> {
    Seq::new(p.len(), |i: int| if i < k { Some(p[i]) } else { None })
}

proof fn lemma_receive_from(v: ChunkerView, group: u64, data: Seq<u8>, cs: nat, k: nat)
    requires
        cs > 0,
        data.len() > 0,
        data.len() <= usize::MAX,
        !v.groups.contains_key(group),
        k < pieces(data, cs).len(),
    ensures
        ({
            let p = pieces(data, cs);
            let vk = if k == 0 {
                v
            } else {
                ChunkerView { groups: v.groups.insert(group, partial_slots(p, k)), ..v }
            };
            let views = chunk_views(group, data, cs);
            &&& all_accepted(vk, views.skip(k as int))
            &&& receive_all(vk, views.skip(k as int)) == (ChunkerView {
                completed: v.completed.push(data),
                ..v
            })
        }),
    decreases pieces(data, cs).len() - k,
{
    lemma_pieces(data, cs);
    let p = pieces(data, cs);
    let n = p.len();
    let views = chunk_views(group, data, cs);
    let vk = if k == 0 {
        v
    } else {
        ChunkerView { groups: v.groups.insert(group, partial_slots(p, k)), ..v }
    };
    let c = views[k as int];
    assert(views.skip(k as int)[0] == c);
    assert(c == ChunkView { group, index: k as u64, group_length: n as u64, data: p[k as int] });
    let slots = slots_for(vk.groups, c);
    assert(slots =~= partial_slots(p, k));
    let filled = slots.update(k as int, Some(p[k as int]));
    assert(filled =~= partial_slots(p, k + 1));
    assert(accepts(vk, c));
    let next = receive_step(vk, c);
    assert(views.skip(k as int).drop_first() =~= views.skip(k + 1 as int));
    assert(views.skip(k as int).len() > 0);
    assert(all_accepted(vk, views.skip(k as int)) == (accepts(vk, c) && all_accepted(
        next,
        views.skip(k + 1 as int),
    )));
    assert(receive_all(vk, views.skip(k as int)) == receive_all(next, views.skip(k + 1 as int)));
    if k + 1 == n {
        assert(all_filled(filled));
        assert(filled.map_values(|o: Option<Seq<u8>>| o.unwrap()) =~= p);
        assert(vk.groups.remove(group) =~= v.groups);
        assert(next == ChunkerView { completed: v.completed.push(data), ..v });
        assert(views.skip(k + 1 as int).len() == 0);
    } else {
        assert(!(filled[n - 1] is Some));
        assert(!all_filled(filled));
        assert(vk.groups.insert(group, filled) =~= v.groups.insert(group, partial_slots(p, k + 1)));
        lemma_receive_from(v, group, data, cs, k + 1);
    }
}

/// A payload sent through a chunker comes out whole at a receiver that takes in the
/// frames in order: every frame is accepted, and once the last has been taken in the
/// payload is the newest completed one, with nothing else changed. This holds for any
/// non-empty payload and any positive piece size, provided the receiver holds no
/// partial group under the same number.
pub proof fn lemma_send_then_receive(v: ChunkerView, group: u64, data: Seq<u8>, cs: nat)
    requires
        cs > 0,
        data.len() > 0,
        data.len() <= usize::MAX,
        !v.groups.contains_key(group),
    ensures
        all_accepted(v, chunk_views(group, data, cs)),
        receive_all(v, chunk_views(group, data, cs)) == (ChunkerView {
            completed: v.completed.push(data),
            ..v
        }),
{
    lemma_pieces(data, cs);
    lemma_receive_from(v, group, data, cs, 0);
    assert(chunk_views(group, data, cs).skip(0) =~= chunk_views(group, data, cs));
}

/// A frame decodes to the view it was encoded from.
pub proof fn lemma_frames_decode(group: u64, data: Seq<u8>, cs: nat, i: int)
    requires
        cs > 0,
        data.len() <= usize::MAX,
        0 <= i < chunk_views(group, data, cs).len(),
    ensures
        parse_chunk(frame_bytes(group, data, cs)[i]) == Some(chunk_views(group, data, cs)[i]),
{
    lemma_pieces(data, cs);
    let c = chunk_views(group, data, cs)[i];
    assert(encode_chunk(c) + Seq::<u8>::empty() =~= encode_chunk(c));
    lemma_chunk_roundtrip(c, Seq::<u8>::empty());
}

/// The frames of payloads `ds` sent one after the other, the first as group `g`.
pub open spec fn run_views(g: u64, ds: Seq<Seq<u8>>, cs: nat) -> Seq<ChunkView>
    decreases ds.len(),
{
    if ds.len() == 0 {
        Seq::empty()
    } else {
        chunk_views(g, ds[0], cs) + run_views((g + 1) as u64, ds.drop_first(), cs)
    }
}

/// Taking in two runs of frames is taking in the first, then the second.
proof fn lemma_receive_concat(v: ChunkerView, a: Seq<ChunkView>, b: Seq<ChunkView>)
    ensures
        receive_all(v, a + b) == receive_all(receive_all(v, a), b),
        all_accepted(v, a + b) == (all_accepted(v, a) && all_accepted(receive_all(v, a), b)),
    decreases a.len(),
{
    if a.len() == 0 {
        assert(a + b =~= b);
    } else {
        assert((a + b).drop_first() =~= a.drop_first() + b);
        assert((a + b)[0] == a[0]);
        lemma_receive_concat(receive_step(v, a[0]), a.drop_first(), b);
    }
}

/// Payloads sent one after the other through a chunker come out whole and in the order
/// they were sent, at a receiver that takes in all their frames in order: every frame is
/// accepted, and the payloads are queued after those already completed, with nothing
/// else changed. This holds for non-empty payloads and a positive piece size, provided
/// the group numbers used fit and the receiver holds no partial group under them.
pub proof fn lemma_send_run_then_receive(v: ChunkerView, g: u64, ds: Seq<Seq<u8>>, cs: nat)
    requires
        cs > 0,
        g + ds.len() <= u64::MAX + 1,
        forall|j: int| 0 <= j < ds.len() ==> 0 < (#[trigger] ds[j]).len() <= usize::MAX,
        forall|j: int| 0 <= j < ds.len() ==> !v.groups.contains_key(#[trigger] ((g + j) as u64)),
    ensures
        all_accepted(v, run_views(g, ds, cs)),
        receive_all(v, run_views(g, ds, cs)) == (ChunkerView { completed: v.completed + ds, ..v }),
    decreases ds.len(),
{
    if ds.len() == 0 {
        assert(v.completed + ds =~= v.completed);
    } else {
        assert(ds[0].len() > 0);
        assert(!v.groups.contains_key((g + 0) as u64));
        lemma_send_then_receive(v, g, ds[0], cs);
        let v1 = ChunkerView { completed: v.completed.push(ds[0]), ..v };
        let rest = ds.drop_first();
        let g1 = (g + 1) as u64;
        if rest.len() > 0 {
            assert forall|j: int| 0 <= j < rest.len() implies 0 < (#[trigger] rest[j]).len() <= usize::MAX by {
                assert(rest[j] == ds[j + 1]);
            }
            assert forall|j: int| 0 <= j < rest.len() implies !v1.groups.contains_key(
                #[trigger] ((g1 + j) as u64),
            ) by {
                assert(((g1 + j) as u64) == ((g + (j + 1)) as u64));
            }
        }
        lemma_send_run_then_receive(v1, g1, rest, cs);
        lemma_receive_concat(v, chunk_views(g, ds[0], cs), run_views(g1, rest, cs));
        assert(v.completed.push(ds[0]) + rest =~= v.completed + ds);
    }
}

/// Cuts outgoing payloads into frames and puts incoming frames back together.
pub struct Chunker<T> {
    delegate: T,
    chunk_size: u64,
    current_group: u64,
    chunk_groups: HashMap<u64, ChunkGroup>,
    completed_chunks: VecDeque<Vec<u8>>,
}

impl<T> Chunker<T> {
    pub closed spec fn view(&self) -> ChunkerView {
        ChunkerView {
            chunk_size: self.chunk_size,
            current_group: self.current_group,
            groups: self.chunk_groups@.map_values(|g: ChunkGroup| g.slots()),
            completed: self.completed_chunks@.map_values(|b: Vec<u8>| b@),
        }
    }

    /// The transport that the frames travel over.
    pub closed spec fn spec_delegate(&self) -> T {
        self.delegate
    }

    /// Every stored group has a slot per piece, counts exactly its filled slots and
    /// still misses a piece.
    pub closed spec fn wf(&self) -> bool {
        forall|g: u64|
            #![trigger self.chunk_groups@[g]]
            self.chunk_groups@.contains_key(g) ==> {
                let grp = self.chunk_groups@[g];
                &&& grp.wf()
                &&& grp.spec_size() == count_filled(grp.slots())
                &&& grp.spec_size() < grp.spec_group_length()
            }
    }

    /// A chunker over `delegate` that cuts payloads into pieces of `chunk_size` bytes.
    pub fn new(delegate: T, chunk_size: u64) -> (c: Chunker<T>)
        ensures
            c.wf(),
            c.view() == (ChunkerView {
                chunk_size,
                current_group: 0,
                groups: Map::empty(),
                completed: Seq::empty(),
            }),
            c.spec_delegate() == delegate,
    {
        let c = Chunker {
            delegate,
            chunk_size,
            current_group: 0,
            chunk_groups: HashMap::new(),
            completed_chunks: VecDeque::new(),
        };
        assert(c.view().groups =~= Map::empty());
        assert(c.view().completed =~= Seq::empty());
        c
    }

    /// The transport that the frames travel over.
    pub fn delegate(&mut self) -> (d: &mut T)
        ensures
            *d == old(self).spec_delegate(),
            final(self).view() == old(self).view(),
            final(self).wf() == old(self).wf(),
            final(self).spec_delegate() == *final(d),
    {
        &mut self.delegate
    }

    /// The group number that the next payload sent gets.
    pub fn current_group(&self) -> (r: u64)
        ensures
            r == self.view().current_group,
    {
        self.current_group
    }

    /// The largest piece a payload is cut into.
    pub fn chunk_size(&self) -> (r: u64)
        ensures
            r == self.view().chunk_size,
    {
        self.chunk_size
    }

    /// Whether `chunk` can be taken in by [`Chunker::add_chunk`].
    pub fn accepts_chunk(&self, chunk: &ChunkedData) -> (r: bool)
        requires
            self.wf(),
        ensures
            r == accepts(self.view(), chunk@),
    {
        match self.chunk_groups.get(&chunk.group) {
            Some(grp) => {
                assert(self.chunk_groups@.contains_key(chunk.group));
                assert(self.chunk_groups@[chunk.group] == *grp);
                assert(grp.wf());
                assert(self.view().groups[chunk.group] == grp.slots());
                if (chunk.index as u128) < (grp.chunks.len() as u128) {
                    let i = chunk.index as usize;
                    assert(grp.slots()[i as int] is None <==> grp.chunks@[i as int] is None);
                    let r = grp.chunks[i].is_none();
                    assert(i as int == chunk.index as int);
                    assert(r == grp.chunks@[i as int] is None);
                    assert(self.view().groups.contains_key(chunk.group));
                    assert(slots_for(self.view().groups, chunk@) == grp.slots());
                    assert(r == accepts(self.view(), chunk@));
                    r
                } else {
                    assert(!accepts(self.view(), chunk@));
                    false
                }
            },
            None => {
                assert(!self.chunk_groups@.contains_key(chunk.group));
                assert(!self.view().groups.contains_key(chunk.group));
                assert(slots_for(self.view().groups, chunk@) == empty_slots(chunk.group_length as nat));
                if chunk.index < chunk.group_length && chunk.group_length as u128
                    <= usize::MAX as u128 {
                    assert(accepts(self.view(), chunk@));
                    true
                } else {
                    assert(!accepts(self.view(), chunk@));
                    false
                }
            },
        }
    }

    /// Files `chunk` under its group; when that completes the group, the joined payload is
    /// queued and the group is dropped.
    pub fn add_chunk(&mut self, chunk: ChunkedData)
        requires
            old(self).wf(),
            accepts(old(self).view(), chunk@),
        ensures
            final(self).wf(),
            final(self).view() == receive_step(old(self).view(), chunk@),
            final(self).spec_delegate() == old(self).spec_delegate(),
    {
        let ghost c = chunk@;
        let ghost old_groups = self.chunk_groups@;
        let g = chunk.group;
        let mut group = match self.chunk_groups.remove(&g) {
            Some(grp) => grp,
            None => {
                let grp = ChunkGroup::new(chunk.group_length);
                proof {
                    lemma_count_filled_empty(chunk.group_length as nat);
                }
                grp
            },
        };
        assert(group.slots() == slots_for(old(self).view().groups, c));
        assert(group.spec_size() == count_filled(group.slots()));
        proof {
            lemma_count_filled_bound(group.slots());
            lemma_count_filled_update(group.slots(), c.index as int, c.data);
        }
        group.add_chunk(chunk);
        let ghost filled = group.slots();
        proof {
            lemma_count_filled_bound(filled);
        }
        if group.is_complete() {
            let payload = group.collect();
            self.completed_chunks.push_back(payload);
            assert(self.chunk_groups@ =~= old_groups.remove(g));
            assert(self.view().groups =~= old(self).view().groups.remove(g));
            assert(self.view().completed =~= old(self).view().completed.push(join_slots(filled)));
        } else {
            self.chunk_groups.insert(g, group);
            assert(self.chunk_groups@ =~= old_groups.insert(g, group));
            assert(self.view().groups =~= old(self).view().groups.insert(g, filled));
            assert(self.view().completed =~= old(self).view().completed);
        }
    }

    /// Takes in one received frame: one that decodes and can be taken in is filed as
    /// [`Chunker::add_chunk`] files it; anything else is refused and changes nothing. Says
    /// whether the frame was taken in.
    pub fn take_frame(&mut self, frame: &[u8]) -> (r: bool)
        requires
            old(self).wf(),
        ensures
            final(self).wf(),
            final(self).spec_delegate() == old(self).spec_delegate(),
            r == (parse_chunk(frame@) matches Some(c) && accepts(old(self).view(), c)),
            r ==> (parse_chunk(frame@) matches Some(c) && final(self).view() == receive_step(
                old(self).view(),
                c,
            )),
            !r ==> final(self).view() == old(self).view(),
    {
        match ChunkedData::decode(frame) {
            Some(chunk) => {
                if self.accepts_chunk(&chunk) {
                    self.add_chunk(chunk);
                    true
                } else {
                    false
                }
            },
            None => false,
        }
    }

    /// Takes the oldest payload received in full, if any.
    pub fn next_ready_chunk(&mut self) -> (r: Option<Vec<u8>>)
        requires
            old(self).wf(),
        ensures
            final(self).wf(),
            final(self).spec_delegate() == old(self).spec_delegate(),
            old(self).view().completed.len() == 0 ==> r is None && final(self).view() == old(
                self,
            ).view(),
            old(self).view().completed.len() > 0 ==> {
                &&& r matches Some(b) && b@ == old(self).view().completed[0]
                &&& final(self).view() == (ChunkerView {
                    completed: old(self).view().completed.drop_first(),
                    ..old(self).view()
                })
            },
    {
        let r = self.completed_chunks.pop_front();
        assert(self.view().completed =~= old(self).view().completed.drop_first() || r is None);
        r
    }

    /// Cuts `data` into frames for a new group and advances the group counter; the
    /// frames are to be sent in order.
    pub fn send_frames(&mut self, data: &[u8]) -> (r: Vec<Vec<u8>>)
        requires
            old(self).wf(),
            old(self).view().chunk_size > 0,
            old(self).view().chunk_size <= usize::MAX,
            old(self).view().current_group < u64::MAX,
        ensures
            final(self).wf(),
            final(self).spec_delegate() == old(self).spec_delegate(),
            final(self).view() == (ChunkerView {
                current_group: (old(self).view().current_group + 1) as u64,
                ..old(self).view()
            }),
            r@.map_values(|f: Vec<u8>| f@) == frame_bytes(
                old(self).view().current_group,
                data@,
                old(self).view().chunk_size as nat,
            ),
    {
        let group = self.current_group;
        self.current_group = group + 1;
        let cs = self.chunk_size as usize;
        let ghost csn = cs as nat;
        // cut into pieces
        let mut parts: Vec<Vec<u8>> = Vec::new();
        let mut pos: usize = 0;
        proof {
            lemma_pieces(data@, csn);
            assert(data@.skip(0) =~= data@);
        }
        while pos < data.len()
            invariant
                pos <= data@.len(),
                csn == cs,
                cs > 0,
                parts@.map_values(|f: Vec<u8>| f@) + pieces(data@.skip(pos as int), csn) == pieces(
                    data@,
                    csn,
                ),
            decreases data@.len() - pos,
        {
            let end = if data.len() - pos <= cs {
                data.len()
            } else {
                pos + cs
            };
            let part = copy_range(data, pos, end);
            proof {
                let s = data@.skip(pos as int);
                lemma_pieces_step(s, csn);
                let m = (end - pos) as int;
                assert(s.take(m) =~= data@.subrange(pos as int, end as int));
                assert(s.skip(m) =~= data@.skip(end as int));
            }
            let ghost before = parts@.map_values(|f: Vec<u8>| f@);
            parts.push(part);
            assert(parts@.map_values(|f: Vec<u8>| f@) =~= before.push(
                data@.subrange(pos as int, end as int),
            ));
            pos = end;
        }
        assert(data@.skip(pos as int).len() == 0);
        assert(parts@.map_values(|f: Vec<u8>| f@) =~= pieces(data@, csn));
        let ghost p = pieces(data@, csn);
        // encode the frames
        let n = parts.len();
        let mut frames: Vec<Vec<u8>> = Vec::new();
        let mut i: usize = 0;
        while i < n
            invariant
                i <= n,
                n == parts@.len(),
                n == p.len(),
                p == pieces(data@, csn),
                n <= data@.len(),
                forall|j: int| 0 <= j < n ==> (#[trigger] parts@[j])@ == p[j],
                frames@.map_values(|f: Vec<u8>| f@) == frame_bytes(group, data@, csn).take(i as int),
                frame_bytes(group, data@, csn).len() == n,
            decreases n - i,
        {
            let mut out: Vec<u8> = Vec::new();
            write_u64(&mut out, group);
            write_u64(&mut out, i as u64);
            write_u64(&mut out, n as u64);
            write_bytes(&mut out, parts[i].as_slice());
            let ghost cv = chunk_views(group, data@, csn)[i as int];
            assert(cv == ChunkView { group, index: i as u64, group_length: n as u64, data: p[i as int] });
            assert(parts@[i as int]@ == p[i as int]);
            assert(out@ =~= encode_chunk(cv));
            let ghost before = frames@.map_values(|f: Vec<u8>| f@);
            frames.push(out);
            assert(frames@.map_values(|f: Vec<u8>| f@) =~= before.push(encode_chunk(cv)));
            assert(frame_bytes(group, data@, csn).take(i + 1) =~= frame_bytes(group, data@, csn).take(
                i as int,
            ).push(encode_chunk(cv)));
            i = i + 1;
        }
        assert(frame_bytes(group, data@, csn).take(n as int) =~= frame_bytes(group, data@, csn));
        assert(self.view().groups =~= old(self).view().groups);
        frames
    }
}

} // verus!
