//! Connection strings: the serialized connection information of a peer, compressed with
//! zstd and written in base64, so that it can be copied between two people by hand.
//!
//! Compression and base64 are done by their crates behind the trusted items below; what is
//! decided here is the order of the steps, the compression level, and that blanks and line
//! breaks typed or pasted into a connection string are ignored.
use vstd::prelude::*;
use vstd::string::StringSliceAdditionalSpecFns;

verus! {

/// The zstd compression level of connection strings.
pub const COMPRESSION_LEVEL: i32 = 10;

/// Why a connection string could not be made.
#[derive(Debug, Clone, Copy, PartialEq, Eq, Structural)]
pub enum CodecError {
    /// The compressor failed.
    Compress,
    /// The compressed bytes are too many to be written in base64 on this machine.
    TooLarge,
}

// ---------------------------------------------------------------------------
// Trusted items: the zstd and base64 crates
// ---------------------------------------------------------------------------

/// What `zstd::stream::copy_encode` writes for `b` at compression level `level`.
pub uninterp spec fn zstd_compressed(b: Seq<u8>, level: i32) -> Seq<u8>;

/// What `zstd::stream::copy_decode` gives back for `b`, or `None` where it fails.
pub uninterp spec fn zstd_decompressed(b: Seq<u8>) -> Option<Seq<u8>>;

/// What `base64::encode` writes for `b`.
pub uninterp spec fn base64_encoded(b: Seq<u8>) -> Seq<char>;

/// What `base64::decode` gives back for the text whose bytes are `b`, or `None` where it
/// refuses them.
pub uninterp spec fn base64_decoded(b: Seq<u8>) -> Option<Seq<u8>>;

/// `zstd::stream::copy_encode` of `b` at level `level` into a vector. The output is the
/// compressor's; zstd is lossless, so decompressing it gives `b` back. The crate clamps
/// the level into its range and writing into a vector never fails, so the call succeeds
/// (running out of memory aborts rather than returning).
#[verifier::external_body]
fn zstd_compress(b: &[u8], level: i32) -> (r: Result<Vec<u8>, CodecError>)
    ensures
        r is Ok,
        r matches Ok(c) ==> c@ == zstd_compressed(b@, level) && zstd_decompressed(c@) == Some(b@),
        r matches Err(e) ==> e == CodecError::Compress,
{
    let mut out: Vec<u8> = Vec::new();
    match zstd::stream::copy_encode(b, &mut out, level) {
        Ok(()) => Ok(out),
        Err(_) => Err(CodecError::Compress),
    }
}

/// `zstd::stream::copy_decode` of `b` into a vector; its failure gives `None`.
#[verifier::external_body]
fn zstd_decompress(b: &[u8]) -> (r: Option<Vec<u8>>)
    ensures
        match zstd_decompressed(b@) {
            Some(d) => r matches Some(v) && v@ == d,
            None => r is None,
        },
{
    let mut out: Vec<u8> = Vec::new();
    match zstd::stream::copy_decode(b, &mut out) {
        Ok(()) => Some(out),
        Err(_) => None,
    }
}

/// A character of the standard base64 alphabet, or its padding.
pub open spec fn is_base64_char(c: char) -> bool {
    ('A' <= c && c <= 'Z') || ('a' <= c && c <= 'z') || ('0' <= c && c <= '9') || c == '+'
        || c == '/' || c == '='
}

/// The bytes of a text of ASCII characters.
pub open spec fn ascii_bytes(s: Seq<char>) -> Seq<u8> {
    Seq::new(s.len(), |i: int| s[i] as u8)
}

/// `base64::encode` (the standard alphabet, with padding). The output is written in the
/// alphabet's characters only, and `base64::decode` of its bytes gives `b` back. The
/// crate panics when the length of the output would overflow `usize`; such inputs are
/// left out.
#[verifier::external_body]
fn base64_encode(b: &[u8]) -> (s: String)
    requires
        b@.len() / 3 * 4 + 4 <= usize::MAX,
    ensures
        s@ == base64_encoded(b@),
        forall|i: int| 0 <= i < s@.len() ==> is_base64_char(#[trigger] s@[i]),
        base64_decoded(ascii_bytes(s@)) == Some(b@),
{
    base64::encode(b)
}

/// `base64::decode` (the standard alphabet, with padding) of the text whose bytes are `b`;
/// its refusal gives `None`.
#[verifier::external_body]
fn base64_decode(b: &[u8]) -> (r: Option<Vec<u8>>)
    ensures
        match base64_decoded(b@) {
            Some(d) => r matches Some(v) && v@ == d,
            None => r is None,
        },
{
    match base64::decode(b) {
        Ok(v) => Some(v),
        Err(_) => None,
    }
}

// ---------------------------------------------------------------------------
// Connection strings
// ---------------------------------------------------------------------------

/// The bytes of `s` without line feeds and spaces.
pub open spec fn strip_blanks(s: Seq<u8>) -> Seq<u8>
    decreases s.len(),
{
    if s.len() == 0 {
        Seq::empty()
    } else {
        let rest = strip_blanks(s.drop_last());
        if s.last() == 10u8 || s.last() == 32u8 {
            rest
        } else {
            rest.push(s.last())
        }
    }
}

/// The bytes of `s` without line feeds and spaces.
fn strip_blanks_of(s: &[u8]) -> (r: Vec<u8>)
    ensures
        r@ == strip_blanks(s@),
{
    let mut out: Vec<u8> = Vec::new();
    let mut i: usize = 0;
    while i < s.len()
        invariant
            i <= s@.len(),
            out@ == strip_blanks(s@.take(i as int)),
        decreases s@.len() - i,
    {
        let b = s[i];
        assert(s@.take(i + 1).drop_last() =~= s@.take(i as int));
        assert(s@.take(i + 1).last() == b);
        if b != 10 && b != 32 {
            out.push(b);
        }
        i = i + 1;
    }
    assert(s@.take(i as int) =~= s@);
    out
}

/// The characters `chars` read back as `x`: they are all base64 characters, and their
/// bytes decode and decompress to `x`.
pub open spec fn reads_back(chars: Seq<char>, x: Seq<u8>) -> bool {
    &&& forall|i: int| 0 <= i < chars.len() ==> is_base64_char(#[trigger] chars[i])
    &&& base64_decoded(ascii_bytes(chars)) matches Some(c) && zstd_decompressed(c) == Some(x)
}

proof fn lemma_strip_no_blanks(s: Seq<u8>)
    requires
        forall|i: int| 0 <= i < s.len() ==> (#[trigger] s[i]) != 10u8 && s[i] != 32u8,
    ensures
        strip_blanks(s) == s,
    decreases s.len(),
{
    if s.len() > 0 {
        let t = s.drop_last();
        assert forall|i: int| 0 <= i < t.len() implies (#[trigger] t[i]) != 10u8 && t[i] != 32u8 by {
            assert(t[i] == s[i]);
        }
        lemma_strip_no_blanks(t);
        assert(s.last() == s[s.len() - 1]);
        assert(t.push(s.last()) =~= s);
    }
}

/// A connection string reads back as the bytes it was made from: it holds no blank or
/// line break, its bytes are those of its (ASCII) characters, and decoding and
/// decompressing undo writing and compressing. With the contracts of
/// [`connection_string`] and [`parse_connection_string`], parsing a connection string
/// gives back the serialized information it was made from.
pub proof fn lemma_read_back(text: &str, x: Seq<u8>)
    requires
        reads_back(text@, x),
    ensures
        base64_decoded(strip_blanks(text.spec_bytes())) matches Some(c) && zstd_decompressed(c)
            == Some(x),
{
    broadcast use vstd::string::is_ascii_spec_bytes;
    assert forall|i: int| 0 <= i < text@.len() implies '\0' <= #[trigger] text@[i] <= '\u{7f}' by {
        assert(is_base64_char(text@[i]));
    }
    assert(vstd::string::is_ascii(text));
    let b = text.spec_bytes();
    assert(b =~= ascii_bytes(text@));
    assert forall|i: int| 0 <= i < b.len() implies (#[trigger] b[i]) != 10u8 && b[i] != 32u8 by {
        assert(is_base64_char(text@[i]));
        assert(b[i] == text@[i] as u8);
    }
    lemma_strip_no_blanks(b);
}

/// The connection string of the serialized connection information `serialized`: the
/// bytes compressed at [`COMPRESSION_LEVEL`], then written in base64.
pub fn connection_string(serialized: &[u8]) -> (r: Result<String, CodecError>)
    ensures
        r matches Ok(s) ==> s@ == base64_encoded(zstd_compressed(serialized@, COMPRESSION_LEVEL))
            && reads_back(s@, serialized@),
        r matches Err(e) ==> e == CodecError::TooLarge && zstd_compressed(
            serialized@,
            COMPRESSION_LEVEL,
        ).len() / 3 * 4 + 4 > usize::MAX,
        zstd_compressed(serialized@, COMPRESSION_LEVEL).len() / 3 * 4 + 4 <= usize::MAX ==> r is Ok,
{
    let compressed = match zstd_compress(serialized, COMPRESSION_LEVEL) {
        Ok(c) => c,
        Err(e) => return Err(e),
    };
    if compressed.len() / 3 > (usize::MAX - 4) / 4 {
        let ghost x: int = (compressed@.len() / 3) as int;
        let ghost m: int = usize::MAX as int;
        assert(x * 4 + 4 > m) by (nonlinear_arith)
            requires
                x > (m - 4) / 4,
                m > 4,
        ;
        return Err(CodecError::TooLarge);
    }
    Ok(base64_encode(compressed.as_slice()))
}

/// The serialized connection information of a connection string, ignoring the line
/// feeds and spaces in it; `None` when the rest is not base64 of zstd-compressed bytes.
pub fn parse_connection_string(text: &str) -> (r: Option<Vec<u8>>)
    ensures
        match base64_decoded(strip_blanks(text.spec_bytes())) {
            Some(c) => match zstd_decompressed(c) {
                Some(d) => r matches Some(v) && v@ == d,
                None => r is None,
            },
            None => r is None,
        },
{
    let stripped = strip_blanks_of(text.as_bytes());
    match base64_decode(stripped.as_slice()) {
        Some(compressed) => zstd_decompress(compressed.as_slice()),
        None => None,
    }
}

} // verus!
