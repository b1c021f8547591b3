//! Keys, the Noise KK handshake, and a transport that tolerates loss and reordering.
//!
//! The cryptography is done by the `snow` crate, reached through the trusted items at the
//! top of this file. What is decided here is which nonce each outgoing message carries,
//! how a message and its nonce are framed, and which incoming nonces are accepted: a
//! window remembers the highest nonces seen, and a nonce that was seen before, or that is
//! older than everything the window remembers, is refused.
use crate::wire::{
    encode_bytes, le8, lemma_parse_bytes_encoded, lemma_parse_bytes_prefix,
    lemma_parse_u64_encoded, lemma_parse_u64_prefix, parse_bytes, parse_u64, read_bytes, read_u64,
    write_bytes, write_u64,
};
use vstd::prelude::*;

verus! {

// ---------------------------------------------------------------------------
// Trusted items: the snow crate
// ---------------------------------------------------------------------------

/// The state of a Noise handshake in progress (`snow::HandshakeState`).
#[verifier::external_type_specification]
#[verifier::external_body]
pub struct ExHandshakeState(snow::HandshakeState);

/// A Noise transport whose nonces are given with each message
/// (`snow::StatelessTransportState`).
#[verifier::external_type_specification]
#[verifier::external_body]
pub struct ExStatelessTransportState(snow::StatelessTransportState);

/// A Noise transport that counts its nonces itself (`snow::TransportState`).
#[verifier::external_type_specification]
#[verifier::external_body]
pub struct ExTransportState(snow::TransportState);

/// The error type of the snow crate (`snow::Error`).
#[verifier::external_type_specification]
#[verifier::external_body]
pub struct ExSnowError(snow::Error);

/// The Noise suite every handshake of this library uses.
pub const NOISE_PARAMS: &'static str = "Noise_KK_25519_ChaChaPoly_BLAKE2s";

/// `snow::Builder::generate_keypair` for the suite named by `params` (parsed with
/// `snow::params::NoiseParams::from_str`): a fresh random static keypair, returned as
/// (public key, private key). The keys themselves are random and not claimed. For this
/// library's suite the crate's default resolver always provides the random source and
/// the 25519 Diffie-Hellman function, so the call succeeds, and both keys are sized by
/// `Dh25519::pub_len` and `priv_len`, which are 32 bytes.
#[verifier::external_body]
fn snow_generate_keypair(params: &str) -> (r: Result<(Vec<u8>, Vec<u8>), snow::Error>)
    ensures
        params@ == NOISE_PARAMS@ ==> r is Ok,
        r matches Ok((public, private)) ==> (params@ == NOISE_PARAMS@ ==> public@.len() == 32
            && private@.len() == 32),
{
    let keypair = snow::Builder::new(params.parse()?).generate_keypair()?;
    Ok((keypair.public, keypair.private))
}

/// How a handshake state was set up: as initiator or responder, for the suite named by
/// `params`, with our private key `local` and the peer's public key `remote`.
pub struct HandshakeSetup {
    pub initiator: bool,
    pub params: Seq<char>,
    pub local: Seq<u8>,
    pub remote: Seq<u8>,
}

/// `snow::Builder::build_initiator` for the suite named by `params`, with our private key and the
/// peer's public key set. The crate copies the private key into a 32-byte buffer and the
/// public key into a 56-byte one, and panics on longer keys: those are left out. For this
/// library's suite, with both keys present, the crate's checks all pass and the call
/// succeeds; the state itself is not claimed.
#[verifier::external_body]
pub(crate) fn snow_build_initiator(params: &str, local_private: &[u8], remote_public: &[u8]) -> (r: Result<
    (snow::HandshakeState, Ghost<HandshakeSetup>),
    snow::Error,
>)
    requires
        local_private@.len() <= 32,
        remote_public@.len() <= 56,
    ensures
        params@ == NOISE_PARAMS@ ==> r is Ok,
        r matches Ok((_, setup)) ==> setup@ == (HandshakeSetup {
            initiator: true,
            params: params@,
            local: local_private@,
            remote: remote_public@,
        }),
{
    let state = snow::Builder::new(params.parse()?).local_private_key(
        local_private,
    ).remote_public_key(remote_public).build_initiator()?;
    Ok((state, Ghost(HandshakeSetup {
        initiator: true,
        params: params@,
        local: local_private@,
        remote: remote_public@,
    })))
}

/// `snow::Builder::build_responder` for the suite named by `params`, with our private key and the
/// peer's public key set. The crate copies the private key into a 32-byte buffer and the
/// public key into a 56-byte one, and panics on longer keys: those are left out. For this
/// library's suite, with both keys present, the crate's checks all pass and the call
/// succeeds; the state itself is not claimed.
#[verifier::external_body]
pub(crate) fn snow_build_responder(params: &str, local_private: &[u8], remote_public: &[u8]) -> (r: Result<
    (snow::HandshakeState, Ghost<HandshakeSetup>),
    snow::Error,
>)
    requires
        local_private@.len() <= 32,
        remote_public@.len() <= 56,
    ensures
        params@ == NOISE_PARAMS@ ==> r is Ok,
        r matches Ok((_, setup)) ==> setup@ == (HandshakeSetup {
            initiator: false,
            params: params@,
            local: local_private@,
            remote: remote_public@,
        }),
{
    let state = snow::Builder::new(params.parse()?).local_private_key(
        local_private,
    ).remote_public_key(remote_public).build_responder()?;
    Ok((state, Ghost(HandshakeSetup {
        initiator: false,
        params: params@,
        local: local_private@,
        remote: remote_public@,
    })))
}

/// `snow::HandshakeState::write_message` into a buffer of the Noise maximum of 65535 bytes,
/// returning the bytes written. The contract claims only that a message fits that
/// maximum: the message holds a fresh random ephemeral key.
#[verifier::external_body]
pub(crate) fn snow_handshake_write(state: &mut snow::HandshakeState, payload: &[u8]) -> (r: Result<
    Vec<u8>,
    snow::Error,
>)
    ensures
        r matches Ok(m) ==> m@.len() <= 65535,
{
    let mut buf = vec![0u8; 65535];
    let len = state.write_message(payload, &mut buf)?;
    buf.truncate(len);
    Ok(buf)
}

/// `snow::HandshakeState::read_message` into a buffer of 65535 bytes, returning the payload
/// read. The contract claims nothing of the payload: it depends on the handshake's keys.
#[verifier::external_body]
pub(crate) fn snow_handshake_read(state: &mut snow::HandshakeState, message: &[u8]) -> (r: Result<
    Vec<u8>,
    snow::Error,
>) {
    let mut buf = vec![0u8; 65535];
    let len = state.read_message(message, &mut buf)?;
    buf.truncate(len);
    Ok(buf)
}

/// `snow::HandshakeState::into_stateless_transport_mode`. The crate refuses when the
/// handshake is not finished; the contract claims nothing.
#[verifier::external_body]
fn snow_into_stateless(state: snow::HandshakeState) -> (r: Result<
    snow::StatelessTransportState,
    snow::Error,
>) {
    state.into_stateless_transport_mode()
}

/// `snow::HandshakeState::into_transport_mode`. The crate refuses when the handshake is
/// not finished; the contract claims nothing.
#[verifier::external_body]
pub(crate) fn snow_into_transport(state: snow::HandshakeState) -> (r: Result<
    snow::TransportState,
    snow::Error,
>) {
    state.into_transport_mode()
}

/// `snow::StatelessTransportState::write_message` into a buffer of 65535 bytes. The crate's
/// ChaChaPoly cipher appends a 16-byte tag to the encrypted payload. It refuses with
/// `Error::Input` a payload whose message would exceed 65535 bytes; every other refusal is
/// an `Error::State`: the responder of a one-way pattern, a cipher without a key, or the
/// reserved nonce `u64::MAX`. Which of these the state is in is not claimed, nor is the
/// ciphertext, which depends on the session keys.
#[verifier::external_body]
fn snow_stateless_write(t: &snow::StatelessTransportState, nonce: u64, payload: &[u8]) -> (r:
    Result<Vec<u8>, SnowError>)
    ensures
        r matches Ok(c) ==> c@.len() == payload@.len() + 16,
        payload@.len() + 16 > 65535 ==> r is Err,
        nonce == u64::MAX ==> r is Err,
        r matches Err(e) ==> e == SnowError::State || e == SnowError::Input,
        payload@.len() + 16 <= 65535 ==> (r matches Err(e) ==> e == SnowError::State),
{
    let mut buf = vec![0u8; 65535];
    match t.write_message(nonce, payload, &mut buf) {
        Ok(len) => {
            buf.truncate(len);
            Ok(buf)
        },
        Err(snow::Error::State(_)) => Err(SnowError::State),
        Err(snow::Error::Input) => Err(SnowError::Input),
        Err(_) => Err(SnowError::Other),
    }
}

/// `snow::StatelessTransportState::read_message` into a buffer of 65535 bytes. A payload
/// read is the message without its 16-byte tag; the crate refuses messages shorter than
/// the tag or longer than 65535 bytes, and the reserved nonce `u64::MAX`. Whether the tag
/// verifies depends on the session keys and is not claimed.
#[verifier::external_body]
fn snow_stateless_read(t: &snow::StatelessTransportState, nonce: u64, message: &[u8]) -> (r:
    Result<Vec<u8>, snow::Error>)
    ensures
        r matches Ok(p) ==> p@.len() + 16 == message@.len(),
        message@.len() < 16 ==> r is Err,
        message@.len() > 65535 ==> r is Err,
        nonce == u64::MAX ==> r is Err,
{
    let mut buf = vec![0u8; 65535];
    let len = t.read_message(nonce, message, &mut buf)?;
    buf.truncate(len);
    Ok(buf)
}

/// `snow::TransportState::write_message` into a buffer of 65535 bytes: the encrypted payload
/// and a 16-byte tag, under the transport's next nonce. The crate refuses a payload whose
/// message would exceed 65535 bytes; the ciphertext is not claimed.
#[verifier::external_body]
pub(crate) fn snow_transport_write(t: &mut snow::TransportState, payload: &[u8]) -> (r: Result<
    Vec<u8>,
    snow::Error,
>)
    ensures
        r matches Ok(c) ==> c@.len() == payload@.len() + 16,
        payload@.len() + 16 > 65535 ==> r is Err,
{
    let mut buf = vec![0u8; 65535];
    let len = t.write_message(payload, &mut buf)?;
    buf.truncate(len);
    Ok(buf)
}

/// `snow::TransportState::read_message` into a buffer of 65535 bytes, under the transport's
/// next receiving nonce: the payload without its 16-byte tag. The crate refuses messages
/// shorter than the tag or longer than 65535 bytes; whether the tag verifies is not
/// claimed.
#[verifier::external_body]
pub(crate) fn snow_transport_read(t: &mut snow::TransportState, message: &[u8]) -> (r: Result<
    Vec<u8>,
    snow::Error,
>)
    ensures
        r matches Ok(p) ==> p@.len() + 16 == message@.len(),
        message@.len() < 16 ==> r is Err,
        message@.len() > 65535 ==> r is Err,
{
    let mut buf = vec![0u8; 65535];
    let len = t.read_message(message, &mut buf)?;
    buf.truncate(len);
    Ok(buf)
}

/// Tells the variants of `snow::Error` apart. The contract claims nothing.
#[verifier::external_body]
fn snow_error_kind(e: snow::Error) -> (k: SnowError) {
    match e {
        snow::Error::Pattern(_) => SnowError::Pattern,
        snow::Error::Init(_) => SnowError::Init,
        snow::Error::Prereq(_) => SnowError::Prereq,
        snow::Error::State(_) => SnowError::State,
        snow::Error::Input => SnowError::Input,
        snow::Error::Dh => SnowError::Dh,
        snow::Error::Decrypt => SnowError::Decrypt,
        _ => SnowError::Other,
    }
}

// ---------------------------------------------------------------------------
// Errors
// ---------------------------------------------------------------------------

/// What went wrong in a cryptographic operation.
#[derive(Debug, Clone, Copy, PartialEq, Eq, Structural)]
pub enum SnowError {
    /// The Noise pattern could not be parsed.
    Pattern,
    /// A building block could not be set up.
    Init,
    /// A key that the pattern needs is missing.
    Prereq,
    /// The operation is not allowed in the current state, or the nonces are exhausted.
    State,
    /// A message or payload is too large or too short.
    Input,
    /// Diffie-Hellman failed.
    Dh,
    /// A message could not be decrypted, or was refused as a replay.
    Decrypt,
    /// Any other failure of the crypto library.
    Other,
}

pub(crate) fn lift<T>(r: Result<T, snow::Error>) -> (s: Result<T, SnowError>)
    ensures
        r is Ok <==> s is Ok,
        r matches Ok(v) ==> s == Ok::<T, SnowError>(v),
{
    match r {
        Ok(v) => Ok(v),
        Err(e) => Err(snow_error_kind(e)),
    }
}

// ---------------------------------------------------------------------------
// Keys
// ---------------------------------------------------------------------------

/// A static public key.
#[derive(Clone, Debug, PartialEq, Eq, PartialOrd, Hash)]
pub struct SnowPublicKey(pub Vec<u8>);

/// A static private key.
#[derive(Clone, Debug, PartialEq, Eq, PartialOrd, Hash)]
pub struct SnowPrivateKey(pub Vec<u8>);

/// A static keypair: public key, then private key.
#[derive(Clone, Debug, PartialEq, Eq, Hash)]
pub struct SnowKeypair(pub SnowPublicKey, pub SnowPrivateKey);

impl View for SnowPublicKey {
    type V = Seq<u8>;

    open spec fn view(&self) -> Seq<u8> {
        self.0@
    }
}

impl View for SnowPrivateKey {
    type V = Seq<u8>;

    open spec fn view(&self) -> Seq<u8> {
        self.0@
    }
}

/// Byte strings in lexicographic order: the first differing byte decides, and a proper
/// prefix comes first. This is the order of public keys that decides who initiates.
pub open spec fn lex_less(a: Seq<u8>, b: Seq<u8>) -> bool
    decreases a.len(),
{
    if a.len() == 0 {
        b.len() > 0
    } else if b.len() == 0 {
        false
    } else if a[0] != b[0] {
        a[0] < b[0]
    } else {
        lex_less(a.drop_first(), b.drop_first())
    }
}

/// Two byte strings that agree on their first `k` bytes are ordered at position `k`: by
/// the bytes there, compared as unsigned numbers, when both go on and differ; the one that
/// ends there comes first, unless the other ends there too.
pub proof fn lemma_lex_less_at(a: Seq<u8>, b: Seq<u8>, k: int)
    requires
        0 <= k <= a.len(),
        k <= b.len(),
        forall|i: int| 0 <= i < k ==> a[i] == b[i],
    ensures
        k < a.len() && k < b.len() && a[k] != b[k] ==> (lex_less(a, b) <==> (a[k] as int) < (
        b[k] as int)),
        k == a.len() && k < b.len() ==> lex_less(a, b),
        k == b.len() ==> !lex_less(a, b),
    decreases k,
{
    if k > 0 {
        assert(a[0] == b[0]);
        let a1 = a.drop_first();
        let b1 = b.drop_first();
        assert forall|i: int| 0 <= i < k - 1 implies a1[i] == b1[i] by {
            assert(a1[i] == a[i + 1] && b1[i] == b[i + 1]);
        }
        lemma_lex_less_at(a1, b1, k - 1);
        if k < a.len() {
            assert(a1[k - 1] == a[k]);
        }
        if k < b.len() {
            assert(b1[k - 1] == b[k]);
        }
    }
}

/// No byte string comes before itself, and of two different ones exactly one comes first.
pub proof fn lemma_lex_less_total(a: Seq<u8>, b: Seq<u8>)
    ensures
        !lex_less(a, a),
        a != b ==> (lex_less(a, b) != lex_less(b, a)),
    decreases a.len(),
{
    if a.len() > 0 {
        lemma_lex_less_total(a.drop_first(), a.drop_first());
        if b.len() > 0 && a[0] == b[0] {
            lemma_lex_less_total(a.drop_first(), b.drop_first());
            if a != b {
                assert(a =~= seq![a[0]] + a.drop_first());
                assert(b =~= seq![b[0]] + b.drop_first());
            }
        }
    } else if b.len() == 0 {
        assert(a =~= b);
    }
}

impl SnowPublicKey {
    /// Whether this key comes before `other` in lexicographic order.
    pub fn is_less_than(&self, other: &SnowPublicKey) -> (r: bool)
        ensures
            r == lex_less(self@, other@),
    {
        let a = &self.0;
        let b = &other.0;
        let mut i: usize = 0;
        assert(self@ == a@ && other@ == b@);
        assert(a@.skip(0) =~= a@);
        assert(b@.skip(0) =~= b@);
        while i < a.len() && i < b.len()
            invariant
                i <= a@.len(),
                i <= b@.len(),
                self@ == a@,
                other@ == b@,
                lex_less(a@, b@) == lex_less(a@.skip(i as int), b@.skip(i as int)),
            decreases a@.len() - i,
        {
            assert(a@.skip(i as int)[0] == a@[i as int]);
            assert(b@.skip(i as int)[0] == b@[i as int]);
            if a[i] != b[i] {
                assert(a@.skip(i as int).len() > 0 && b@.skip(i as int).len() > 0);
                assert(lex_less(a@.skip(i as int), b@.skip(i as int)) == (a@[i as int] < b@[
                    i as int]));
                return a[i] < b[i];
            }
            assert(a@.skip(i as int).drop_first() =~= a@.skip(i + 1));
            assert(b@.skip(i as int).drop_first() =~= b@.skip(i + 1));
            i = i + 1;
        }
        i == a.len() && i < b.len()
    }
}

impl SnowKeypair {
    /// A fresh random keypair of two 32-byte keys.
    pub fn new() -> (r: Result<SnowKeypair, SnowError>)
        ensures
            r matches Ok(k) && k.0@.len() == 32 && k.1@.len() == 32,
    {
        match lift(snow_generate_keypair(NOISE_PARAMS)) {
            Ok((public, private)) => Ok(SnowKeypair(SnowPublicKey(public), SnowPrivateKey(private))),
            Err(e) => Err(e),
        }
    }

    /// The public key.
    pub fn public(&self) -> (r: SnowPublicKey)
        ensures
            r@ == self.0@,
    {
        SnowPublicKey(self.0.0.clone())
    }

    /// The private key.
    pub fn private(&self) -> (r: SnowPrivateKey)
        ensures
            r@ == self.1@,
    {
        SnowPrivateKey(self.1.0.clone())
    }
}

// ---------------------------------------------------------------------------
// Nonce framing
// ---------------------------------------------------------------------------

/// An encrypted message together with the nonce it was encrypted under.
pub struct Nonced(pub u64, pub Vec<u8>);

/// The bytes of a nonced message: the nonce, then the ciphertext as a byte string.
pub open spec fn encode_nonced(nonce: u64, ct: Seq<u8>) -> Seq<u8> {
    le8(nonce) + encode_bytes(ct)
}

/// Reads a nonced message; bytes after it are ignored.
pub open spec fn parse_nonced(s: Seq<u8>) -> Option<(u64, Seq<u8>)> {
    match parse_u64(s) {
        Some((nonce, r)) => match parse_bytes(r) {
            Some((ct, _)) => Some((nonce, ct)),
            None => None,
        },
        None => None,
    }
}

/// Decoding an encoded nonced message, with anything after it, gives it back.
pub proof fn lemma_nonced_roundtrip(nonce: u64, ct: Seq<u8>, rest: Seq<u8>)
    requires
        ct.len() <= u64::MAX,
    ensures
        parse_nonced(encode_nonced(nonce, ct) + rest) == Some((nonce, ct)),
{
    lemma_parse_bytes_encoded(ct, rest);
    lemma_parse_u64_encoded(nonce, encode_bytes(ct) + rest);
    assert(encode_nonced(nonce, ct) + rest =~= le8(nonce) + (encode_bytes(ct) + rest));
}

/// Whatever decodes as a nonced message starts with that message's encoding.
pub proof fn lemma_nonced_prefix(s: Seq<u8>)
    ensures
        parse_nonced(s) matches Some((nonce, ct)) ==> exists|rest: Seq<u8>|
            s == encode_nonced(nonce, ct) + rest,
{
    if let Some((nonce, ct)) = parse_nonced(s) {
        lemma_parse_u64_prefix(s);
        let r = parse_u64(s).unwrap().1;
        lemma_parse_bytes_prefix(r);
        let rest = parse_bytes(r).unwrap().1;
        assert(s =~= encode_nonced(nonce, ct) + rest);
    }
}

impl Nonced {
    /// The message's bytes.
    pub fn encode(&self) -> (r: Vec<u8>)
        ensures
            r@ == encode_nonced(self.0, self.1@),
    {
        let mut out: Vec<u8> = Vec::new();
        write_u64(&mut out, self.0);
        write_bytes(&mut out, self.1.as_slice());
        assert(out@ =~= encode_nonced(self.0, self.1@));
        out
    }

    /// Reads a nonced message from the front of `bytes`.
    pub fn decode(bytes: &[u8]) -> (r: Option<Nonced>)
        ensures
            match r {
                Some(n) => parse_nonced(bytes@) == Some((n.0, n.1@)),
                None => parse_nonced(bytes@) is None,
            },
    {
        assert(bytes@.skip(0) =~= bytes@);
        let (nonce, p) = match read_u64(bytes, 0) {
            Some(x) => x,
            None => return None,
        };
        match read_bytes(bytes, p) {
            Some((ct, _)) => Some(Nonced(nonce, ct)),
            None => None,
        }
    }
}


// ---------------------------------------------------------------------------
// The window of received nonces
// ---------------------------------------------------------------------------

/// Strictly increasing.
pub open spec fn sorted_unique(s: Seq<u64>) -> bool {
    forall|i: int, j: int| 0 <= i < j < s.len() ==> s[i] < s[j]
}

/// A window refuses a nonce that it holds, or one older than everything it holds.
pub open spec fn window_rejects(s: Seq<u64>, n: u64) -> bool {
    s.contains(n) || (s.len() > 0 && s[0] > n)
}

/// `n` put into its place in a strictly increasing sequence.
pub open spec fn insert_sorted(s: Seq<u64>, n: u64) -> Seq<u64>
    decreases s.len(),
{
    if s.len() == 0 {
        seq![n]
    } else if n < s[0] {
        seq![n] + s
    } else {
        seq![s[0]] + insert_sorted(s.drop_first(), n)
    }
}

/// The `size` newest (largest) nonces of `t`.
pub open spec fn trim_window(t: Seq<u64>, size: nat) -> Seq<u64> {
    if t.len() > size {
        t.skip(t.len() - size)
    } else {
        t
    }
}

/// The window after nonce `n` has been accepted.
pub open spec fn window_after(s: Seq<u64>, n: u64, size: nat) -> Seq<u64> {
    trim_window(insert_sorted(s, n), size)
}

/// The window after a run of incoming nonces: refused ones leave it as it is.
pub open spec fn window_run(s: Seq<u64>, size: nat, ns: Seq<u64>) -> Seq<u64>
    decreases ns.len(),
{
    if ns.len() == 0 {
        s
    } else {
        let next = if window_rejects(s, ns[0]) {
            s
        } else {
            window_after(s, ns[0], size)
        };
        window_run(next, size, ns.drop_first())
    }
}

pub proof fn lemma_insert_sorted(s: Seq<u64>, n: u64)
    requires
        sorted_unique(s),
        !s.contains(n),
    ensures
        sorted_unique(insert_sorted(s, n)),
        insert_sorted(s, n).len() == s.len() + 1,
        forall|x: u64| #[trigger] insert_sorted(s, n).contains(x) <==> (s.contains(x) || x == n),
        insert_sorted(s, n)[0] == (if s.len() == 0 || n < s[0] {
            n
        } else {
            s[0]
        }),
    decreases s.len(),
{
    let t = insert_sorted(s, n);
    if s.len() == 0 {
        assert forall|x: u64| #[trigger] t.contains(x) <==> (s.contains(x) || x == n) by {
            if t.contains(x) {
                assert(t[0] == x);
            }
            if x == n {
                assert(t[0] == n);
            }
        }
    } else if n < s[0] {
        assert forall|x: u64| #[trigger] t.contains(x) <==> (s.contains(x) || x == n) by {
            if t.contains(x) {
                let k = choose|k: int| 0 <= k < t.len() && t[k] == x;
                if k > 0 {
                    assert(s[k - 1] == x);
                }
            }
            if s.contains(x) {
                let k = choose|k: int| 0 <= k < s.len() && s[k] == x;
                assert(t[k + 1] == x);
            }
            if x == n {
                assert(t[0] == n);
            }
        }
    } else {
        let r = s.drop_first();
        assert(!r.contains(n)) by {
            if r.contains(n) {
                let k = choose|k: int| 0 <= k < r.len() && r[k] == n;
                assert(s[k + 1] == n);
            }
        }
        lemma_insert_sorted(r, n);
        let u = insert_sorted(r, n);
        assert(t == seq![s[0]] + u);
        assert(s[0] != n) by {
            assert(s[0] == s[0]);
            if s[0] == n {
                assert(s.contains(n));
            }
        }
        assert forall|i: int, j: int| 0 <= i < j < t.len() implies t[i] < t[j] by {
            if i == 0 {
                assert(t[j] == u[j - 1]);
                assert(u.contains(u[j - 1]));
                if r.contains(u[j - 1]) {
                    let k = choose|k: int| 0 <= k < r.len() && r[k] == u[j - 1];
                    assert(s[k + 1] == u[j - 1]);
                }
            }
        }
        assert forall|x: u64| #[trigger] t.contains(x) <==> (s.contains(x) || x == n) by {
            if t.contains(x) {
                let k = choose|k: int| 0 <= k < t.len() && t[k] == x;
                if k > 0 {
                    assert(u[k - 1] == x);
                    assert(u.contains(x));
                    if r.contains(x) {
                        let q = choose|q: int| 0 <= q < r.len() && r[q] == x;
                        assert(s[q + 1] == x);
                    }
                } else {
                    assert(s[0] == x);
                }
            }
            if s.contains(x) {
                let k = choose|k: int| 0 <= k < s.len() && s[k] == x;
                if k == 0 {
                    assert(t[0] == x);
                } else {
                    assert(r[k - 1] == x);
                    assert(u.contains(x));
                    let q = choose|q: int| 0 <= q < u.len() && u[q] == x;
                    assert(t[q + 1] == x);
                }
            }
            if x == n {
                assert(u.contains(n));
                let q = choose|q: int| 0 <= q < u.len() && u[q] == n;
                assert(t[q + 1] == n);
            }
        }
    }
}

/// In a strictly increasing sequence, `n` belongs just before the first element above it.
pub proof fn lemma_insert_sorted_at(s: Seq<u64>, n: u64, i: int)
    requires
        sorted_unique(s),
        0 <= i <= s.len(),
        forall|j: int| 0 <= j < i ==> s[j] < n,
        i < s.len() ==> s[i] > n,
    ensures
        insert_sorted(s, n) == s.insert(i, n),
    decreases i,
{
    if i == 0 {
        if s.len() == 0 {
            assert(s.insert(0, n) =~= seq![n]);
        } else {
            assert(s.insert(0, n) =~= seq![n] + s);
        }
    } else {
        let r = s.drop_first();
        assert forall|j: int| 0 <= j < i - 1 implies r[j] < n by {
            assert(s[j + 1] < n);
        }
        lemma_insert_sorted_at(r, n, i - 1);
        assert(s.insert(i, n) =~= seq![s[0]] + r.insert(i - 1, n));
    }
}

/// An accepted nonce is refused by the window that results, and a nonce that the
/// window refused before stays refused. (The window must hold at least one nonce.)
pub proof fn lemma_window_remembers(s: Seq<u64>, size: nat, n: u64, m: u64)
    requires
        sorted_unique(s),
        size >= 1,
        !window_rejects(s, n),
        window_rejects(s, m) || m == n,
    ensures
        window_rejects(window_after(s, n, size), m),
        sorted_unique(window_after(s, n, size)),
        window_after(s, n, size).len() <= size,
{
    lemma_insert_sorted(s, n);
    let t = insert_sorted(s, n);
    let w = window_after(s, n, size);
    if t.len() > size {
        let k = t.len() - size;
        assert(w == t.skip(k));
        assert(w.len() >= 1);
        assert(w[0] == t[k]);
        if t.contains(m) {
            let j = choose|j: int| 0 <= j < t.len() && t[j] == m;
            if j >= k {
                assert(w[j - k] == m);
            } else {
                assert(t[j] < t[k]);
            }
        } else {
            // m is older than everything s held, and n is newer than s's oldest
            assert(s.len() > 0 && s[0] > m);
            assert(s.contains(s[0]));
            assert(n != s[0]);
            assert(t[0] == s[0]);
            assert(t[0] <= t[k]);
        }
    } else {
        assert(w == t);
        if !t.contains(m) {
            assert(s.len() > 0 && s[0] > m);
            assert(s.contains(s[0]));
            assert(t[0] == s[0]);
        }
    }
}

/// Accepting a nonce keeps the newest nonces: the window holds the nonces it held and the
/// new one, or the `size` newest of them, and every nonce it lets go is older than every
/// nonce it keeps.
pub proof fn lemma_window_keeps_newest(s: Seq<u64>, size: nat, n: u64)
    requires
        sorted_unique(s),
        !s.contains(n),
    ensures
        ({
            let t = insert_sorted(s, n);
            let w = window_after(s, n, size);
            &&& w.len() == if t.len() > size {
                size as int
            } else {
                t.len() as int
            }
            &&& forall|x: u64| #[trigger] w.contains(x) ==> t.contains(x)
            &&& forall|x: u64, y: u64|
                #![trigger t.contains(x), w.contains(y)]
                t.contains(x) && !w.contains(x) && w.contains(y) ==> x < y
        }),
{
    lemma_insert_sorted(s, n);
    let t = insert_sorted(s, n);
    let w = window_after(s, n, size);
    if t.len() > size {
        let k = t.len() - size;
        assert(w == t.skip(k));
        assert forall|x: u64| #[trigger] w.contains(x) implies t.contains(x) by {
            let j = choose|j: int| 0 <= j < w.len() && w[j] == x;
            assert(t[j + k] == x);
        }
        assert forall|x: u64, y: u64|
            #![trigger t.contains(x), w.contains(y)]
            t.contains(x) && !w.contains(x) && w.contains(y) implies x < y by {
            let i = choose|i: int| 0 <= i < t.len() && t[i] == x;
            let j = choose|j: int| 0 <= j < w.len() && w[j] == y;
            if i >= k {
                assert(w[i - k] == x);
            }
            assert(t[j + k] == y);
        }
    } else {
        assert(w == t);
    }
}

/// Once a window has refused a nonce, or has accepted it, it refuses that nonce for good,
/// whatever nonces arrive afterwards. This is what keeps a replayed message out.
pub proof fn lemma_replay_refused(s: Seq<u64>, size: nat, ns: Seq<u64>, m: u64)
    requires
        sorted_unique(s),
        size >= 1,
        window_rejects(s, m),
    ensures
        window_rejects(window_run(s, size, ns), m),
    decreases ns.len(),
{
    if ns.len() > 0 {
        if window_rejects(s, ns[0]) {
            lemma_replay_refused(s, size, ns.drop_first(), m);
        } else {
            lemma_window_remembers(s, size, ns[0], m);
            lemma_replay_refused(window_after(s, ns[0], size), size, ns.drop_first(), m);
        }
    }
}

/// A nonce accepted by a window is refused by every later state of it.
pub proof fn lemma_accepted_then_refused(s: Seq<u64>, size: nat, n: u64, ns: Seq<u64>)
    requires
        sorted_unique(s),
        size >= 1,
        !window_rejects(s, n),
    ensures
        window_rejects(window_run(window_after(s, n, size), size, ns), n),
{
    lemma_window_remembers(s, size, n, n);
    lemma_replay_refused(window_after(s, n, size), size, ns, n);
}

// ---------------------------------------------------------------------------
// LossyTransportState
// ---------------------------------------------------------------------------

/// An encrypted transport for an unreliable network: every message carries its own
/// nonce, so messages may be lost or arrive out of order, and a window of recently seen
/// nonces keeps replays out.
pub struct LossyTransportState {
    stateless: snow::StatelessTransportState,
    size: usize,
    next_nonce: u64,
    received_nonces: Vec<u64>,
    opened: Ghost<Seq<Seq<u8>>>,
    sealed: Ghost<Seq<Seq<u8>>>,
}

impl LossyTransportState {
    /// The nonce that the next outgoing message will carry.
    pub closed spec fn spec_next_nonce(&self) -> u64 {
        self.next_nonce
    }

    /// The number of nonces the window remembers.
    pub closed spec fn spec_size(&self) -> nat {
        self.size as nat
    }

    /// The plaintexts of the messages opened so far, oldest first.
    pub closed spec fn spec_opened(&self) -> Seq<Seq<u8>> {
        self.opened@
    }

    /// The plaintexts of the messages sealed so far, oldest first.
    pub closed spec fn spec_sealed(&self) -> Seq<Seq<u8>> {
        self.sealed@
    }

    /// The nonces the window remembers, oldest first.
    pub closed spec fn window(&self) -> Seq<u64> {
        self.received_nonces@
    }

    /// The window is strictly increasing and no longer than its size.
    pub closed spec fn wf(&self) -> bool {
        &&& sorted_unique(self.received_nonces@)
        &&& self.received_nonces@.len() <= self.size
    }

    /// A well-formed window is strictly increasing and holds at most its size: what the
    /// window lemmas ask for.
    pub proof fn lemma_wf_window(&self)
        requires
            self.wf(),
        ensures
            sorted_unique(self.window()),
            self.window().len() <= self.spec_size(),
    {
    }

    /// A transport with a window of one nonce.
    pub fn from_stateless(stateless: snow::StatelessTransportState) -> (t: LossyTransportState)
        ensures
            t.wf(),
            t.spec_size() == 1,
            t.spec_next_nonce() == 0,
            t.window() == Seq::<u64>::empty(),
            t.spec_opened() == Seq::<Seq<u8>>::empty(),
            t.spec_sealed() == Seq::<Seq<u8>>::empty(),
    {
        LossyTransportState::new(stateless, 1)
    }

    /// A transport whose window remembers `size` nonces.
    pub fn new(stateless: snow::StatelessTransportState, size: usize) -> (t: LossyTransportState)
        ensures
            t.wf(),
            t.spec_size() == size,
            t.spec_next_nonce() == 0,
            t.window() == Seq::<u64>::empty(),
            t.spec_opened() == Seq::<Seq<u8>>::empty(),
            t.spec_sealed() == Seq::<Seq<u8>>::empty(),
    {
        let t = LossyTransportState {
            stateless,
            size,
            next_nonce: 0,
            received_nonces: Vec::new(),
            opened: Ghost(Seq::empty()),
            sealed: Ghost(Seq::empty()),
        };
        assert(t.window() =~= Seq::<u64>::empty());
        t
    }

    /// Encrypts `payload` under the next nonce and frames it with that nonce. The nonce
    /// is used up even when encryption fails. The last nonce, `u64::MAX`, is reserved by
    /// Noise: once the counter reaches it nothing more is sent. Below it, a payload is
    /// refused only when its message would exceed 65535 bytes (`Input`) or when the Noise
    /// state cannot send at all (`State`); what is encrypted is recorded as sealed.
    pub fn write_message(&mut self, payload: &[u8]) -> (r: Result<Vec<u8>, SnowError>)
        requires
            old(self).wf(),
        ensures
            final(self).wf(),
            final(self).window() == old(self).window(),
            final(self).spec_size() == old(self).spec_size(),
            final(self).spec_opened() == old(self).spec_opened(),
            old(self).spec_next_nonce() == u64::MAX ==> r == Err::<Vec<u8>, SnowError>(
                SnowError::State,
            ) && final(self).spec_next_nonce() == u64::MAX,
            old(self).spec_next_nonce() < u64::MAX ==> final(self).spec_next_nonce()
                == old(self).spec_next_nonce() + 1,
            r matches Ok(f) ==> parse_nonced(f@) matches Some((nonce, ct)) && nonce == old(
                self,
            ).spec_next_nonce() && ct.len() == payload@.len() + 16,
            r matches Ok(f) ==> exists|ct: Seq<u8>|
                #![trigger encode_nonced(old(self).spec_next_nonce(), ct)]
                f@ == encode_nonced(old(self).spec_next_nonce(), ct) && ct.len() == payload@.len()
                    + 16,
            payload@.len() + 16 > 65535 ==> r is Err,
            old(self).spec_next_nonce() < u64::MAX && payload@.len() + 16 <= 65535 ==> r is Ok
                || r == Err::<Vec<u8>, SnowError>(SnowError::State),
            r is Ok ==> final(self).spec_sealed() == old(self).spec_sealed().push(payload@),
            r is Err ==> final(self).spec_sealed() == old(self).spec_sealed(),
    {
        if self.next_nonce == u64::MAX {
            return Err(SnowError::State);
        }
        let nonce = self.next_nonce;
        self.next_nonce = nonce + 1;
        match snow_stateless_write(&self.stateless, nonce, payload) {
            Ok(ct) => {
                self.sealed = Ghost(self.sealed@.push(payload@));
                let framed = Nonced(nonce, ct).encode();
                proof {
                    lemma_nonced_roundtrip(nonce, ct@, Seq::<u8>::empty());
                    assert(encode_nonced(nonce, ct@) + Seq::<u8>::empty() =~= encode_nonced(
                        nonce,
                        ct@,
                    ));
                }
                Ok(framed)
            },
            Err(e) => Err(e),
        }
    }

    /// Records `nonce` in the window unless the window refuses it; says whether it was
    /// accepted.
    fn accept_nonce(&mut self, nonce: u64) -> (accepted: bool)
        requires
            old(self).wf(),
        ensures
            final(self).wf(),
            accepted == !window_rejects(old(self).window(), nonce),
            final(self).window() == if accepted {
                window_after(old(self).window(), nonce, old(self).spec_size())
            } else {
                old(self).window()
            },
            final(self).spec_size() == old(self).spec_size(),
            final(self).spec_next_nonce() == old(self).spec_next_nonce(),
            final(self).stateless == old(self).stateless,
            final(self).opened == old(self).opened,
            final(self).sealed == old(self).sealed,
    {
        let ghost s = self.received_nonces@;
        let len = self.received_nonces.len();
        let mut i: usize = 0;
        while i < len && self.received_nonces[i] < nonce
            invariant
                len == self.received_nonces@.len(),
                self.received_nonces@ == s,
                i <= len,
                forall|j: int| 0 <= j < i ==> s[j] < nonce,
            decreases len - i,
        {
            i = i + 1;
        }
        let found = i < len && self.received_nonces[i] == nonce;
        let older = len > 0 && self.received_nonces[0] > nonce;
        assert(found ==> s.contains(nonce));
        assert(s.contains(nonce) ==> found) by {
            if s.contains(nonce) {
                let k = choose|k: int| 0 <= k < s.len() && s[k] == nonce;
                if k < i {
                    assert(s[k] < nonce);
                } else if k > i {
                    assert(s[i as int] < s[k]);
                }
            }
        }
        if found || older {
            return false;
        }
        proof {
            lemma_insert_sorted_at(s, nonce, i as int);
            lemma_insert_sorted(s, nonce);
        }
        self.received_nonces.insert(i, nonce);
        let ghost t = self.received_nonces@;
        assert(t == insert_sorted(s, nonce));
        let size = self.size;
        while self.received_nonces.len() > size
            invariant
                size == self.size,
                self.size == old(self).size,
                self.next_nonce == old(self).next_nonce,
                self.stateless == old(self).stateless,
                self.opened == old(self).opened,
                self.sealed == old(self).sealed,
                t.len() <= size + 1,
                t.len() > size ==> self.received_nonces@.len() >= size,
                t.len() <= size ==> self.received_nonces@.len() == t.len(),
                sorted_unique(t),
                t.len() >= self.received_nonces@.len(),
                self.received_nonces@ == t.skip(t.len() - self.received_nonces@.len()),
            decreases self.received_nonces@.len(),
        {
            let ghost before = self.received_nonces@;
            self.received_nonces.remove(0);
            assert(self.received_nonces@ =~= t.skip(t.len() - self.received_nonces@.len()));
        }
        proof {
            if t.len() <= self.size {
                assert(t.skip(0) =~= t);
            }
            assert(self.received_nonces@ =~= trim_window(t, self.size as nat));
            let w = self.received_nonces@;
            assert forall|a: int, b: int| 0 <= a < b < w.len() implies w[a] < w[b] by {
                let k = t.len() - w.len();
                assert(w[a] == t[a + k]);
                assert(w[b] == t[b + k]);
            }
        }
        true
    }

    /// Opens a framed message: the nonce must not be refused by the window, and is
    /// recorded in it before decryption is tried; a refused nonce gives `Decrypt`.
    pub fn read_message(&mut self, payload: &[u8]) -> (r: Result<Vec<u8>, SnowError>)
        requires
            old(self).wf(),
            parse_nonced(payload@) is Some,
        ensures
            final(self).wf(),
            final(self).spec_size() == old(self).spec_size(),
            final(self).spec_next_nonce() == old(self).spec_next_nonce(),
            ({
                let (nonce, ct) = parse_nonced(payload@).unwrap();
                &&& final(self).window() == if window_rejects(old(self).window(), nonce) {
                    old(self).window()
                } else {
                    window_after(old(self).window(), nonce, old(self).spec_size())
                }
                &&& window_rejects(old(self).window(), nonce) ==> r == Err::<Vec<u8>, SnowError>(
                    SnowError::Decrypt,
                )
                &&& r matches Ok(p) ==> p@.len() + 16 == ct.len()
            }),
            r matches Ok(p) ==> final(self).spec_opened() == old(self).spec_opened().push(p@),
            r is Err ==> final(self).spec_opened() == old(self).spec_opened(),
            final(self).spec_sealed() == old(self).spec_sealed(),
    {
        let nonced = match Nonced::decode(payload) {
            Some(n) => n,
            None => return Err(SnowError::Input),
        };
        if !self.accept_nonce(nonced.0) {
            return Err(SnowError::Decrypt);
        }
        match lift(snow_stateless_read(&self.stateless, nonced.0, nonced.1.as_slice())) {
            Ok(p) => {
                self.opened = Ghost(self.opened@.push(p@));
                Ok(p)
            },
            Err(e) => Err(e),
        }
    }
}


// ---------------------------------------------------------------------------
// The handshake
// ---------------------------------------------------------------------------

/// The first handshake message, from initiator to responder.
#[derive(Clone, Debug)]
pub struct SnowInitiation(pub Vec<u8>);

/// The second handshake message, from responder to initiator.
#[derive(Clone, Debug)]
pub struct SnowResponse(pub Vec<u8>);

impl View for SnowInitiation {
    type V = Seq<u8>;

    open spec fn view(&self) -> Seq<u8> {
        self.0@
    }
}

impl View for SnowResponse {
    type V = Seq<u8>;

    open spec fn view(&self) -> Seq<u8> {
        self.0@
    }
}

/// A fresh transport as a completed handshake hands it over: nothing sent, nothing
/// received, a window of one nonce.
pub open spec fn fresh_transport(t: LossyTransportState) -> bool {
    &&& t.wf()
    &&& t.spec_next_nonce() == 0
    &&& t.window() == Seq::<u64>::empty()
    &&& t.spec_opened() == Seq::<Seq<u8>>::empty()
    &&& t.spec_size() == 1
}

/// The outgoing nonce counter after one attempt to send: advanced by one, except that it
/// stays at the reserved last value.
pub open spec fn next_after_send(n: u64) -> u64 {
    if n < u64::MAX {
        (n + 1) as u64
    } else {
        u64::MAX
    }
}

/// The outgoing nonce counter after `k` attempts to send, starting from `n`.
pub open spec fn next_after_sends(n: u64, k: nat) -> u64
    decreases k,
{
    if k == 0 {
        n
    } else {
        next_after_send(next_after_sends(n, (k - 1) as nat))
    }
}

/// Over a run of sends the nonce counter counts the sends, and stops at the reserved last
/// value.
pub proof fn lemma_sends_count(n: u64, k: nat)
    ensures
        next_after_sends(n, k) == if n + k < u64::MAX {
            (n + k) as u64
        } else {
            u64::MAX
        },
    decreases k,
{
    if k > 0 {
        lemma_sends_count(n, (k - 1) as nat);
    }
}

/// The messages of a run of sends carry increasing nonces: the nonce of the `i`-th send is
/// below that of every later send, as long as it is below the reserved last value (a
/// send at that value is refused).
pub proof fn lemma_sent_nonces_increase(n: u64, i: nat, j: nat)
    requires
        i < j,
        next_after_sends(n, i) < u64::MAX,
    ensures
        next_after_sends(n, i) < next_after_sends(n, j),
{
    lemma_sends_count(n, i);
    lemma_sends_count(n, j);
}

/// The initiating side of a handshake, holding the initiation it sends.
pub struct SnowInitiator(snow::HandshakeState, SnowInitiation, Ghost<HandshakeSetup>);

/// What the initiator makes of a response.
pub enum ReceiveResponseResult {
    /// The handshake is complete; here is the transport.
    Established(LossyTransportState),
    /// The response was refused; the initiator is handed back to wait for another.
    Refused(SnowInitiator),
    /// The response was read but the handshake could not be turned into a transport.
    Failed(SnowError),
}

impl ReceiveResponseResult {
    /// The transport of a completed handshake.
    pub fn unwrap(self) -> (t: LossyTransportState)
        requires
            self is Established,
        ensures
            self matches ReceiveResponseResult::Established(s) && t == s,
    {
        match self {
            ReceiveResponseResult::Established(state) => state,
            _ => vstd::pervasive::unreached(),
        }
    }
}

impl SnowInitiator {
    /// The initiation this side sends.
    pub closed spec fn spec_initiation(&self) -> Seq<u8> {
        self.1@
    }

    /// How the handshake state was set up.
    pub closed spec fn spec_setup(&self) -> HandshakeSetup {
        self.2@
    }

    /// Starts a handshake with the peer whose static public key is `remote_public_key`,
    /// and writes the initiation.
    pub fn new(keypair: &SnowKeypair, remote_public_key: &SnowPublicKey) -> (r: Result<
        SnowInitiator,
        SnowError,
    >)
        ensures
            r matches Ok(i) ==> i.spec_initiation().len() <= 65535,
            r matches Ok(i) ==> i.spec_setup() == (HandshakeSetup {
                initiator: true,
                params: NOISE_PARAMS@,
                local: keypair.1@,
                remote: remote_public_key@,
            }),
            keypair.1@.len() > 32 || remote_public_key@.len() > 56 ==> r == Err::<
                SnowInitiator,
                SnowError,
            >(SnowError::Input),
    {
        if keypair.1.0.len() > 32 || remote_public_key.0.len() > 56 {
            return Err(SnowError::Input);
        }
        let (mut state, setup) = match lift(
            snow_build_initiator(NOISE_PARAMS, keypair.1.0.as_slice(), remote_public_key.0.as_slice()),
        ) {
            Ok(s) => s,
            Err(e) => return Err(e),
        };
        let empty: Vec<u8> = Vec::new();
        match lift(snow_handshake_write(&mut state, empty.as_slice())) {
            Ok(m) => Ok(SnowInitiator(state, SnowInitiation(m), setup)),
            Err(e) => Err(e),
        }
    }

    /// The initiation to send to the responder.
    pub fn initiation(&self) -> (r: SnowInitiation)
        ensures
            r@ == self.spec_initiation(),
    {
        SnowInitiation(self.1.0.clone())
    }

    /// Reads the responder's answer. A refused answer hands the initiator back; an
    /// accepted one completes the handshake.
    pub fn receive_response(self, response: SnowResponse) -> (r: ReceiveResponseResult)
        ensures
            r matches ReceiveResponseResult::Established(t) ==> fresh_transport(t),
            r matches ReceiveResponseResult::Refused(i) ==> i.spec_initiation()
                == self.spec_initiation() && i.spec_setup() == self.spec_setup(),
    {
        let SnowInitiator(mut state, initiation, setup) = self;
        match snow_handshake_read(&mut state, response.0.as_slice()) {
            Err(_) => ReceiveResponseResult::Refused(SnowInitiator(state, initiation, setup)),
            Ok(_) => match lift(snow_into_stateless(state)) {
                Ok(st) => ReceiveResponseResult::Established(LossyTransportState::from_stateless(st)),
                Err(e) => ReceiveResponseResult::Failed(e),
            },
        }
    }
}

/// The responding side of a handshake.
pub struct SnowResponder(snow::HandshakeState, Ghost<HandshakeSetup>);

impl SnowResponder {
    /// How the handshake state was set up.
    pub closed spec fn spec_setup(&self) -> HandshakeSetup {
        self.1@
    }

    /// Waits for a handshake from the peer whose static public key is `remote_public_key`.
    pub fn new(keypair: &SnowKeypair, remote_public_key: &SnowPublicKey) -> (r: Result<
        SnowResponder,
        SnowError,
    >)
        ensures
            r is Ok <==> keypair.1@.len() <= 32 && remote_public_key@.len() <= 56,
            r is Err ==> r == Err::<SnowResponder, SnowError>(SnowError::Input),
            r matches Ok(resp) ==> resp.spec_setup() == (HandshakeSetup {
                initiator: false,
                params: NOISE_PARAMS@,
                local: keypair.1@,
                remote: remote_public_key@,
            }),
    {
        if keypair.1.0.len() > 32 || remote_public_key.0.len() > 56 {
            return Err(SnowError::Input);
        }
        match lift(
            snow_build_responder(NOISE_PARAMS, keypair.1.0.as_slice(), remote_public_key.0.as_slice()),
        ) {
            Ok((s, setup)) => Ok(SnowResponder(s, setup)),
            Err(e) => Err(e),
        }
    }

    /// Reads the initiation and writes the response; the handshake is then complete on
    /// this side.
    pub fn response(self, initiation: SnowInitiation) -> (r: Result<
        (LossyTransportState, SnowResponse),
        SnowError,
    >)
        ensures
            r matches Ok((t, resp)) ==> fresh_transport(t) && resp@.len() <= 65535,
    {
        let mut state = self.0;
        match lift(snow_handshake_read(&mut state, initiation.0.as_slice())) {
            Ok(_) => {},
            Err(e) => return Err(e),
        }
        let empty: Vec<u8> = Vec::new();
        let message = match lift(snow_handshake_write(&mut state, empty.as_slice())) {
            Ok(m) => m,
            Err(e) => return Err(e),
        };
        match lift(snow_into_stateless(state)) {
            Ok(st) => Ok((LossyTransportState::from_stateless(st), SnowResponse(message))),
            Err(e) => Err(e),
        }
    }
}

} // verus!
