//! Byte-level building blocks of the packet layouts.
//!
//! Integers are written with a fixed width, little endian; byte strings are written
//! as their length (eight bytes, little endian) followed by the bytes; enum variants
//! are announced by a four-byte little-endian index; a session identifier is written
//! as a byte string of sixteen bytes holding the identifier in big-endian order.
//! Decoders accept trailing bytes and hand them back as the rest of the input.
use vstd::prelude::*;

verus! {

// ---------------------------------------------------------------------------
// Fixed-width integers
// ---------------------------------------------------------------------------

/// The eight little-endian bytes of `v`.
pub open spec fn le8(v: u64) -> Seq<u8> {
    seq![
        v as u8,
        (v >> 8u64) as u8,
        (v >> 16u64) as u8,
        (v >> 24u64) as u8,
        (v >> 32u64) as u8,
        (v >> 40u64) as u8,
        (v >> 48u64) as u8,
        (v >> 56u64) as u8,
    ]
}

/// The value of eight little-endian bytes.
pub open spec fn from_le8(s: Seq<u8>) -> u64 {
    (s[0] as u64) | ((s[1] as u64) << 8u64) | ((s[2] as u64) << 16u64) | ((s[3] as u64) << 24u64)
        | ((s[4] as u64) << 32u64) | ((s[5] as u64) << 40u64) | ((s[6] as u64) << 48u64) | ((
    s[7] as u64) << 56u64)
}

/// The four little-endian bytes of `v`.
pub open spec fn le4(v: u32) -> Seq<u8> {
    seq![v as u8, (v >> 8u32) as u8, (v >> 16u32) as u8, (v >> 24u32) as u8]
}

/// The value of four little-endian bytes.
pub open spec fn from_le4(s: Seq<u8>) -> u32 {
    (s[0] as u32) | ((s[1] as u32) << 8u32) | ((s[2] as u32) << 16u32) | ((s[3] as u32) << 24u32)
}

/// The sixteen big-endian bytes of `v`.
pub open spec fn be16(v: u128) -> Seq<u8> {
    seq![
        (v >> 120u128) as u8,
        (v >> 112u128) as u8,
        (v >> 104u128) as u8,
        (v >> 96u128) as u8,
        (v >> 88u128) as u8,
        (v >> 80u128) as u8,
        (v >> 72u128) as u8,
        (v >> 64u128) as u8,
        (v >> 56u128) as u8,
        (v >> 48u128) as u8,
        (v >> 40u128) as u8,
        (v >> 32u128) as u8,
        (v >> 24u128) as u8,
        (v >> 16u128) as u8,
        (v >> 8u128) as u8,
        v as u8,
    ]
}

/// The value of sixteen big-endian bytes.
pub open spec fn from_be16(s: Seq<u8>) -> u128 {
    ((s[0] as u128) << 120u128) | ((s[1] as u128) << 112u128) | ((s[2] as u128) << 104u128) | ((
    s[3] as u128) << 96u128) | ((s[4] as u128) << 88u128) | ((s[5] as u128) << 80u128) | ((
    s[6] as u128) << 72u128) | ((s[7] as u128) << 64u128) | ((s[8] as u128) << 56u128) | ((
    s[9] as u128) << 48u128) | ((s[10] as u128) << 40u128) | ((s[11] as u128) << 32u128) | ((
    s[12] as u128) << 24u128) | ((s[13] as u128) << 16u128) | ((s[14] as u128) << 8u128) | (
    s[15] as u128)
}

pub proof fn lemma_le8_roundtrip(v: u64)
    ensures
        le8(v).len() == 8,
        from_le8(le8(v)) == v,
{
    assert(((v as u8) as u64) | ((((v >> 8u64) as u8) as u64) << 8u64) | ((((v >> 16u64) as u8)
        as u64) << 16u64) | ((((v >> 24u64) as u8) as u64) << 24u64) | ((((v >> 32u64) as u8)
        as u64) << 32u64) | ((((v >> 40u64) as u8) as u64) << 40u64) | ((((v >> 48u64) as u8)
        as u64) << 48u64) | ((((v >> 56u64) as u8) as u64) << 56u64) == v) by (bit_vector);
}

pub proof fn lemma_from_le8_roundtrip(s: Seq<u8>)
    requires
        s.len() == 8,
    ensures
        le8(from_le8(s)) == s,
{
    let b0 = s[0];
    let b1 = s[1];
    let b2 = s[2];
    let b3 = s[3];
    let b4 = s[4];
    let b5 = s[5];
    let b6 = s[6];
    let b7 = s[7];
    let v = from_le8(s);
    assert(v as u8 == b0 && (v >> 8u64) as u8 == b1 && (v >> 16u64) as u8 == b2 && (v >> 24u64)
        as u8 == b3 && (v >> 32u64) as u8 == b4 && (v >> 40u64) as u8 == b5 && (v >> 48u64) as u8
        == b6 && (v >> 56u64) as u8 == b7) by (bit_vector)
        requires
            v == (b0 as u64) | ((b1 as u64) << 8u64) | ((b2 as u64) << 16u64) | ((b3 as u64)
                << 24u64) | ((b4 as u64) << 32u64) | ((b5 as u64) << 40u64) | ((b6 as u64)
                << 48u64) | ((b7 as u64) << 56u64),
    ;
    assert(le8(v) =~= s);
}

pub proof fn lemma_le4_roundtrip(v: u32)
    ensures
        le4(v).len() == 4,
        from_le4(le4(v)) == v,
{
    assert(((v as u8) as u32) | ((((v >> 8u32) as u8) as u32) << 8u32) | ((((v >> 16u32) as u8)
        as u32) << 16u32) | ((((v >> 24u32) as u8) as u32) << 24u32) == v) by (bit_vector);
}

pub proof fn lemma_from_le4_roundtrip(s: Seq<u8>)
    requires
        s.len() == 4,
    ensures
        le4(from_le4(s)) == s,
{
    let b0 = s[0];
    let b1 = s[1];
    let b2 = s[2];
    let b3 = s[3];
    let v = from_le4(s);
    assert(v as u8 == b0 && (v >> 8u32) as u8 == b1 && (v >> 16u32) as u8 == b2 && (v >> 24u32)
        as u8 == b3) by (bit_vector)
        requires
            v == (b0 as u32) | ((b1 as u32) << 8u32) | ((b2 as u32) << 16u32) | ((b3 as u32)
                << 24u32),
    ;
    assert(le4(v) =~= s);
}

pub proof fn lemma_be16_roundtrip(v: u128)
    ensures
        be16(v).len() == 16,
        from_be16(be16(v)) == v,
{
    assert(((((v >> 120u128) as u8) as u128) << 120u128) | ((((v >> 112u128) as u8) as u128)
        << 112u128) | ((((v >> 104u128) as u8) as u128) << 104u128) | ((((v >> 96u128) as u8)
        as u128) << 96u128) | ((((v >> 88u128) as u8) as u128) << 88u128) | ((((v >> 80u128)
        as u8) as u128) << 80u128) | ((((v >> 72u128) as u8) as u128) << 72u128) | ((((v
        >> 64u128) as u8) as u128) << 64u128) | ((((v >> 56u128) as u8) as u128) << 56u128) | ((((
    v >> 48u128) as u8) as u128) << 48u128) | ((((v >> 40u128) as u8) as u128) << 40u128) | ((((
    v >> 32u128) as u8) as u128) << 32u128) | ((((v >> 24u128) as u8) as u128) << 24u128) | ((((
    v >> 16u128) as u8) as u128) << 16u128) | ((((v >> 8u128) as u8) as u128) << 8u128) | ((
    v as u8) as u128) == v) by (bit_vector);
}

pub proof fn lemma_from_be16_roundtrip(s: Seq<u8>)
    requires
        s.len() == 16,
    ensures
        be16(from_be16(s)) == s,
{
    let b0 = s[0];
    let b1 = s[1];
    let b2 = s[2];
    let b3 = s[3];
    let b4 = s[4];
    let b5 = s[5];
    let b6 = s[6];
    let b7 = s[7];
    let b8 = s[8];
    let b9 = s[9];
    let b10 = s[10];
    let b11 = s[11];
    let b12 = s[12];
    let b13 = s[13];
    let b14 = s[14];
    let b15 = s[15];
    let v = from_be16(s);
    assert((v >> 120u128) as u8 == b0 && (v >> 112u128) as u8 == b1 && (v >> 104u128) as u8 == b2
        && (v >> 96u128) as u8 == b3 && (v >> 88u128) as u8 == b4 && (v >> 80u128) as u8 == b5 && (v
        >> 72u128) as u8 == b6 && (v >> 64u128) as u8 == b7 && (v >> 56u128) as u8 == b8 && (v
        >> 48u128) as u8 == b9 && (v >> 40u128) as u8 == b10 && (v >> 32u128) as u8 == b11 && (v
        >> 24u128) as u8 == b12 && (v >> 16u128) as u8 == b13 && (v >> 8u128) as u8 == b14 && v
        as u8 == b15) by (bit_vector)
        requires
            v == ((b0 as u128) << 120u128) | ((b1 as u128) << 112u128) | ((b2 as u128) << 104u128)
                | ((b3 as u128) << 96u128) | ((b4 as u128) << 88u128) | ((b5 as u128) << 80u128) | ((
            b6 as u128) << 72u128) | ((b7 as u128) << 64u128) | ((b8 as u128) << 56u128) | ((
            b9 as u128) << 48u128) | ((b10 as u128) << 40u128) | ((b11 as u128) << 32u128) | ((
            b12 as u128) << 24u128) | ((b13 as u128) << 16u128) | ((b14 as u128) << 8u128) | (
            b15 as u128),
    ;
    assert(be16(v) =~= s);
}


// ---------------------------------------------------------------------------
// Parsers over sequences of bytes
// ---------------------------------------------------------------------------

/// Reads an eight-byte little-endian integer off the front of `s`.
pub open spec fn parse_u64(s: Seq<u8>) -> Option<(u64, Seq<u8>)> {
    if s.len() >= 8 {
        Some((from_le8(s.take(8)), s.skip(8)))
    } else {
        None
    }
}

/// Reads a four-byte little-endian integer off the front of `s`.
pub open spec fn parse_u32(s: Seq<u8>) -> Option<(u32, Seq<u8>)> {
    if s.len() >= 4 {
        Some((from_le4(s.take(4)), s.skip(4)))
    } else {
        None
    }
}

/// A byte string: its length, then its bytes.
pub open spec fn encode_bytes(b: Seq<u8>) -> Seq<u8> {
    le8(b.len() as u64) + b
}

/// Reads a length-prefixed byte string off the front of `s`.
pub open spec fn parse_bytes(s: Seq<u8>) -> Option<(Seq<u8>, Seq<u8>)> {
    match parse_u64(s) {
        Some((n, rest)) => if n <= rest.len() {
            Some((rest.take(n as int), rest.skip(n as int)))
        } else {
            None
        },
        None => None,
    }
}

/// A session identifier: a byte string of the sixteen big-endian bytes of the identifier.
pub open spec fn encode_id(id: u128) -> Seq<u8> {
    encode_bytes(be16(id))
}

/// Reads a session identifier; a byte string of another length than sixteen is refused.
pub open spec fn parse_id(s: Seq<u8>) -> Option<(u128, Seq<u8>)> {
    match parse_bytes(s) {
        Some((b, rest)) => if b.len() == 16 {
            Some((from_be16(b), rest))
        } else {
            None
        },
        None => None,
    }
}

/// A cursor result `r`, taken at some position of `data`, agrees with the parse `p` of the
/// bytes from that position: both fail, or both give the same value and the cursor stops
/// where the rest of the parse begins.
pub open spec fn agrees<T>(data: Seq<u8>, r: Option<(T, usize)>, p: Option<(T, Seq<u8>)>) -> bool {
    match r {
        Some((v, q)) => q <= data.len() && p == Some((v, data.skip(q as int))),
        None => p is None,
    }
}

pub proof fn lemma_parse_u64_encoded(v: u64, rest: Seq<u8>)
    ensures
        parse_u64(le8(v) + rest) == Some((v, rest)),
{
    lemma_le8_roundtrip(v);
    assert((le8(v) + rest).take(8) =~= le8(v));
    assert((le8(v) + rest).skip(8) =~= rest);
}

pub proof fn lemma_parse_u64_prefix(s: Seq<u8>)
    ensures
        parse_u64(s) matches Some((v, rest)) ==> s == le8(v) + rest,
{
    if s.len() >= 8 {
        lemma_from_le8_roundtrip(s.take(8));
        assert(s =~= s.take(8) + s.skip(8));
    }
}

pub proof fn lemma_parse_u32_encoded(v: u32, rest: Seq<u8>)
    ensures
        parse_u32(le4(v) + rest) == Some((v, rest)),
{
    lemma_le4_roundtrip(v);
    assert((le4(v) + rest).take(4) =~= le4(v));
    assert((le4(v) + rest).skip(4) =~= rest);
}

pub proof fn lemma_parse_u32_prefix(s: Seq<u8>)
    ensures
        parse_u32(s) matches Some((v, rest)) ==> s == le4(v) + rest,
{
    if s.len() >= 4 {
        lemma_from_le4_roundtrip(s.take(4));
        assert(s =~= s.take(4) + s.skip(4));
    }
}

pub proof fn lemma_parse_bytes_encoded(b: Seq<u8>, rest: Seq<u8>)
    requires
        b.len() <= u64::MAX,
    ensures
        parse_bytes(encode_bytes(b) + rest) == Some((b, rest)),
{
    lemma_parse_u64_encoded(b.len() as u64, b + rest);
    assert(encode_bytes(b) + rest =~= le8(b.len() as u64) + (b + rest));
    assert((b + rest).take(b.len() as int) =~= b);
    assert((b + rest).skip(b.len() as int) =~= rest);
}

pub proof fn lemma_parse_bytes_prefix(s: Seq<u8>)
    ensures
        parse_bytes(s) matches Some((b, rest)) ==> s == encode_bytes(b) + rest,
{
    lemma_parse_u64_prefix(s);
    if let Some((n, r)) = parse_u64(s) {
        if n <= r.len() {
            assert(r =~= r.take(n as int) + r.skip(n as int));
            assert(s =~= le8(r.take(n as int).len() as u64) + r.take(n as int) + r.skip(n as int));
        }
    }
}

pub proof fn lemma_parse_id_encoded(id: u128, rest: Seq<u8>)
    ensures
        parse_id(encode_id(id) + rest) == Some((id, rest)),
{
    lemma_be16_roundtrip(id);
    lemma_parse_bytes_encoded(be16(id), rest);
}

pub proof fn lemma_parse_id_prefix(s: Seq<u8>)
    ensures
        parse_id(s) matches Some((id, rest)) ==> s == encode_id(id) + rest,
{
    lemma_parse_bytes_prefix(s);
    if let Some((b, r)) = parse_bytes(s) {
        if b.len() == 16 {
            lemma_from_be16_roundtrip(b);
        }
    }
}

// ---------------------------------------------------------------------------
// Writers
// ---------------------------------------------------------------------------

/// Appends the eight little-endian bytes of `v`.
pub fn write_u64(out: &mut Vec<u8>, v: u64)
    ensures
        final(out)@ == old(out)@ + le8(v),
{
    out.push(v as u8);
    out.push((v >> 8u64) as u8);
    out.push((v >> 16u64) as u8);
    out.push((v >> 24u64) as u8);
    out.push((v >> 32u64) as u8);
    out.push((v >> 40u64) as u8);
    out.push((v >> 48u64) as u8);
    out.push((v >> 56u64) as u8);
    assert(out@ =~= old(out)@ + le8(v));
}

/// Appends the four little-endian bytes of `v`.
pub fn write_u32(out: &mut Vec<u8>, v: u32)
    ensures
        final(out)@ == old(out)@ + le4(v),
{
    out.push(v as u8);
    out.push((v >> 8u32) as u8);
    out.push((v >> 16u32) as u8);
    out.push((v >> 24u32) as u8);
    assert(out@ =~= old(out)@ + le4(v));
}

/// Appends the bytes of `b`, without a length.
pub fn write_raw(out: &mut Vec<u8>, b: &[u8])
    ensures
        final(out)@ == old(out)@ + b@,
{
    let ghost start = out@;
    let mut i: usize = 0;
    while i < b.len()
        invariant
            i <= b@.len(),
            out@ == start + b@.take(i as int),
        decreases b@.len() - i,
    {
        out.push(b[i]);
        i = i + 1;
        assert(out@ =~= start + b@.take(i as int));
    }
    assert(b@.take(i as int) =~= b@);
}

/// Appends `b` as a byte string: its length, then its bytes.
pub fn write_bytes(out: &mut Vec<u8>, b: &[u8])
    ensures
        final(out)@ == old(out)@ + encode_bytes(b@),
{
    write_u64(out, b.len() as u64);
    write_raw(out, b);
    assert(out@ =~= old(out)@ + encode_bytes(b@));
}

/// Appends a session identifier.
pub fn write_id(out: &mut Vec<u8>, id: u128)
    ensures
        final(out)@ == old(out)@ + encode_id(id),
{
    write_u64(out, 16);
    out.push((id >> 120u128) as u8);
    out.push((id >> 112u128) as u8);
    out.push((id >> 104u128) as u8);
    out.push((id >> 96u128) as u8);
    out.push((id >> 88u128) as u8);
    out.push((id >> 80u128) as u8);
    out.push((id >> 72u128) as u8);
    out.push((id >> 64u128) as u8);
    out.push((id >> 56u128) as u8);
    out.push((id >> 48u128) as u8);
    out.push((id >> 40u128) as u8);
    out.push((id >> 32u128) as u8);
    out.push((id >> 24u128) as u8);
    out.push((id >> 16u128) as u8);
    out.push((id >> 8u128) as u8);
    out.push(id as u8);
    proof {
        lemma_be16_roundtrip(id);
    }
    assert(out@ =~= old(out)@ + encode_id(id));
}

// ---------------------------------------------------------------------------
// Readers: a cursor into a slice
// ---------------------------------------------------------------------------

/// Reads an eight-byte little-endian integer at `pos`.
pub fn read_u64(data: &[u8], pos: usize) -> (r: Option<(u64, usize)>)
    requires
        pos <= data@.len(),
    ensures
        agrees(data@, r, parse_u64(data@.skip(pos as int))),
{
    if data.len() - pos < 8 {
        return None;
    }
    let v = (data[pos] as u64) | ((data[pos + 1] as u64) << 8u64) | ((data[pos + 2] as u64)
        << 16u64) | ((data[pos + 3] as u64) << 24u64) | ((data[pos + 4] as u64) << 32u64) | ((
    data[pos + 5] as u64) << 40u64) | ((data[pos + 6] as u64) << 48u64) | ((data[pos + 7] as u64)
        << 56u64);
    let ghost s = data@.skip(pos as int);
    assert(s.take(8)[0] == data@[pos as int]);
    assert(s.take(8)[1] == data@[pos + 1]);
    assert(s.take(8)[2] == data@[pos + 2]);
    assert(s.take(8)[3] == data@[pos + 3]);
    assert(s.take(8)[4] == data@[pos + 4]);
    assert(s.take(8)[5] == data@[pos + 5]);
    assert(s.take(8)[6] == data@[pos + 6]);
    assert(s.take(8)[7] == data@[pos + 7]);
    assert(s.skip(8) =~= data@.skip(pos + 8));
    Some((v, pos + 8))
}

/// Reads a four-byte little-endian integer at `pos`.
pub fn read_u32(data: &[u8], pos: usize) -> (r: Option<(u32, usize)>)
    requires
        pos <= data@.len(),
    ensures
        agrees(data@, r, parse_u32(data@.skip(pos as int))),
{
    if data.len() - pos < 4 {
        return None;
    }
    let v = (data[pos] as u32) | ((data[pos + 1] as u32) << 8u32) | ((data[pos + 2] as u32)
        << 16u32) | ((data[pos + 3] as u32) << 24u32);
    let ghost s = data@.skip(pos as int);
    assert(s.take(4)[0] == data@[pos as int]);
    assert(s.take(4)[1] == data@[pos + 1]);
    assert(s.take(4)[2] == data@[pos + 2]);
    assert(s.take(4)[3] == data@[pos + 3]);
    assert(s.skip(4) =~= data@.skip(pos + 4));
    Some((v, pos + 4))
}

/// Copies `data[start..end]` into a new vector.
pub fn copy_range(data: &[u8], start: usize, end: usize) -> (r: Vec<u8>)
    requires
        start <= end <= data@.len(),
    ensures
        r@ == data@.subrange(start as int, end as int),
{
    let mut r: Vec<u8> = Vec::new();
    let mut i = start;
    while i < end
        invariant
            start <= i <= end <= data@.len(),
            r@ == data@.subrange(start as int, i as int),
        decreases end - i,
    {
        r.push(data[i]);
        i = i + 1;
        assert(r@ =~= data@.subrange(start as int, i as int));
    }
    r
}

/// Reads a length-prefixed byte string at `pos`.
pub fn read_bytes(data: &[u8], pos: usize) -> (r: Option<(Vec<u8>, usize)>)
    requires
        pos <= data@.len(),
    ensures
        match r {
            Some((b, q)) => q <= data@.len() && parse_bytes(data@.skip(pos as int)) == Some(
                (b@, data@.skip(q as int)),
            ),
            None => parse_bytes(data@.skip(pos as int)) is None,
        },
{
    match read_u64(data, pos) {
        None => None,
        Some((n, p)) => {
            let avail = data.len() - p;
            if (avail as u64) < n {
                return None;
            }
            let end = p + n as usize;
            let b = copy_range(data, p, end);
            let ghost rest = data@.skip(p as int);
            assert(rest.take(n as int) =~= data@.subrange(p as int, end as int));
            assert(rest.skip(n as int) =~= data@.skip(end as int));
            Some((b, end))
        },
    }
}

/// Reads a session identifier at `pos`.
pub fn read_id(data: &[u8], pos: usize) -> (r: Option<(u128, usize)>)
    requires
        pos <= data@.len(),
    ensures
        agrees(data@, r, parse_id(data@.skip(pos as int))),
{
    match read_u64(data, pos) {
        None => None,
        Some((n, p)) => {
            if n != 16 || data.len() - p < 16 {
                return None;
            }
            let d = data;
            let id = ((d[p] as u128) << 120u128) | ((d[p + 1] as u128) << 112u128) | ((d[p + 2]
                as u128) << 104u128) | ((d[p + 3] as u128) << 96u128) | ((d[p + 4] as u128)
                << 88u128) | ((d[p + 5] as u128) << 80u128) | ((d[p + 6] as u128) << 72u128) | ((
            d[p + 7] as u128) << 64u128) | ((d[p + 8] as u128) << 56u128) | ((d[p + 9] as u128)
                << 48u128) | ((d[p + 10] as u128) << 40u128) | ((d[p + 11] as u128) << 32u128) | ((
            d[p + 12] as u128) << 24u128) | ((d[p + 13] as u128) << 16u128) | ((d[p + 14] as u128)
                << 8u128) | (d[p + 15] as u128);
            let ghost b = data@.skip(p as int).take(16);
            assert(b =~= data@.subrange(p as int, p + 16));
            assert(b[0] == d@[p as int]);
            assert(b[1] == d@[p + 1]);
            assert(b[2] == d@[p + 2]);
            assert(b[3] == d@[p + 3]);
            assert(b[4] == d@[p + 4]);
            assert(b[5] == d@[p + 5]);
            assert(b[6] == d@[p + 6]);
            assert(b[7] == d@[p + 7]);
            assert(b[8] == d@[p + 8]);
            assert(b[9] == d@[p + 9]);
            assert(b[10] == d@[p + 10]);
            assert(b[11] == d@[p + 11]);
            assert(b[12] == d@[p + 12]);
            assert(b[13] == d@[p + 13]);
            assert(b[14] == d@[p + 14]);
            assert(b[15] == d@[p + 15]);
            assert(data@.skip(p as int).skip(16) =~= data@.skip(p + 16));
            Some((id, p + 16))
        },
    }
}

} // verus!
