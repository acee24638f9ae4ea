//! Wire messages exchanged between peers and their binary encoding.
//!
//! The layout is little-endian with fixed-width integers: a `u32` variant
//! tag, then each field in order, where text and keys are a `u64` length
//! followed by that many bytes (text as UTF-8).
use vstd::prelude::*;
use vstd::utf8::{decode_utf8, encode_utf8, encode_utf8_decode_utf8, encode_utf8_valid_utf8, valid_utf8};

verus! {

/// Largest frame the handshake accepts, in bytes.
pub const MAX_FRAME_SIZE: usize = 4096;

/// Number of bytes of a peer's public key.
pub const KEY_LENGTH: usize = 32;

/// The fixed-size public key a remote peer announces.
pub struct PeerKey {
    bytes: Vec<u8>,
}

impl View for PeerKey {
    type V = Seq<u8>;

    closed spec fn view(&self) -> Seq<u8> {
        self.bytes@
    }
}

impl PeerKey {
    pub fn from_array(a: [u8; 32]) -> (r: PeerKey)
        ensures
            r@ == a@,
            r@.len() == KEY_LENGTH,
    {
        let mut bytes: Vec<u8> = Vec::new();
        let mut i: usize = 0;
        while i < 32
            invariant
                i <= 32,
                bytes@ == a@.subrange(0, i as int),
            decreases 32 - i,
        {
            bytes.push(a[i]);
            i = i + 1;
            assert(bytes@ =~= a@.subrange(0, i as int));
        }
        assert(bytes@ =~= a@);
        PeerKey { bytes }
    }

    /// The key held in `b`, or `None` where `b` is not exactly one key long.
    pub fn from_slice(b: &[u8]) -> (r: Option<PeerKey>)
        ensures
            r is Some <==> b@.len() == KEY_LENGTH,
            r matches Some(k) ==> k@ == b@,
    {
        if b.len() != KEY_LENGTH {
            return None;
        }
        Some(PeerKey { bytes: copy_range(b, 0, b.len()) })
    }

    pub fn to_vec(&self) -> (r: Vec<u8>)
        ensures
            r@ == self@,
    {
        copy_range(self.bytes.as_slice(), 0, self.bytes.len())
    }
}

/// A message a client sends.
pub enum Request {
    /// Registers as a client of the server.
    Connect { agent: String, key: PeerKey },
    /// Reserved: carries no fields yet.
    Login,
}

/// A message a server sends.
pub enum Response {
    Connected { server: String },
    /// Reserved: carries no fields yet.
    LoginSuccessful,
}

pub enum RequestView {
    Connect { agent: Seq<char>, key: Seq<u8> },
    Login,
}

pub enum ResponseView {
    Connected { server: Seq<char> },
    LoginSuccessful,
}

impl View for Request {
    type V = RequestView;

    open spec fn view(&self) -> RequestView {
        match self {
            Request::Connect { agent, key } => RequestView::Connect { agent: agent@, key: key@ },
            Request::Login => RequestView::Login,
        }
    }
}

impl View for Response {
    type V = ResponseView;

    open spec fn view(&self) -> ResponseView {
        match self {
            Response::Connected { server } => ResponseView::Connected { server: server@ },
            Response::LoginSuccessful => ResponseView::LoginSuccessful,
        }
    }
}

/// A request whose key has the length the protocol fixes.
pub open spec fn request_valid(r: RequestView) -> bool {
    match r {
        RequestView::Connect { key, .. } => key.len() == KEY_LENGTH,
        RequestView::Login => true,
    }
}

/// Why a frame could not be decoded.
#[derive(PartialEq, Eq, Structural, Clone, Copy, Debug)]
pub enum DecodeError {
    /// The bytes end before the frame does.
    Incomplete,
    /// The frame reaches past the size limit.
    FrameTooLarge,
    /// The bytes do not form a message.
    Malformed,
}

/// `256` to the power `k`.
pub open spec fn radix(k: nat) -> nat
    decreases k,
{
    if k == 0 {
        1
    } else {
        256 * radix((k - 1) as nat)
    }
}

/// The `k` low bytes of `n`, least significant first.
pub open spec fn le_bytes(n: nat, k: nat) -> Seq<u8>
    decreases k,
{
    if k == 0 {
        Seq::empty()
    } else {
        seq![(n % 256) as u8] + le_bytes(n / 256, (k - 1) as nat)
    }
}

/// The number whose little-endian bytes are `s`.
pub open spec fn le_value(s: Seq<u8>) -> nat
    decreases s.len(),
{
    if s.len() == 0 {
        0
    } else {
        s[0] as nat + 256 * le_value(s.drop_first())
    }
}

/// A byte string as a field: its length on eight bytes, then the bytes.
pub open spec fn field_bytes(s: Seq<u8>) -> Seq<u8> {
    le_bytes(s.len(), 8) + s
}

pub open spec fn request_bytes(r: RequestView) -> Seq<u8> {
    match r {
        RequestView::Connect { agent, key } => le_bytes(0, 4) + field_bytes(encode_utf8(agent))
            + field_bytes(key),
        RequestView::Login => le_bytes(1, 4),
    }
}

pub open spec fn response_bytes(r: ResponseView) -> Seq<u8> {
    match r {
        ResponseView::Connected { server } => le_bytes(0, 4) + field_bytes(encode_utf8(server)),
        ResponseView::LoginSuccessful => le_bytes(1, 4),
    }
}

/// Reads a `k`-byte integer at `at`; the limit is checked before the bytes.
pub open spec fn parse_uint(b: Seq<u8>, at: nat, k: nat, limit: nat) -> Result<nat, DecodeError> {
    if at + k > limit {
        Err(DecodeError::FrameTooLarge)
    } else if at + k > b.len() {
        Err(DecodeError::Incomplete)
    } else {
        Ok(le_value(b.subrange(at as int, (at + k) as int)))
    }
}

/// Reads a length-prefixed field at `at`: its bytes and the position after it.
pub open spec fn parse_field(b: Seq<u8>, at: nat, limit: nat) -> Result<(Seq<u8>, nat), DecodeError> {
    match parse_uint(b, at, 8, limit) {
        Err(e) => Err(e),
        Ok(len) => {
            let start = at + 8;
            if start + len > limit {
                Err(DecodeError::FrameTooLarge)
            } else if start + len > b.len() {
                Err(DecodeError::Incomplete)
            } else {
                Ok((b.subrange(start as int, (start + len) as int), start + len))
            }
        },
    }
}

/// Reads a text field at `at`.
pub open spec fn parse_text(b: Seq<u8>, at: nat, limit: nat) -> Result<(Seq<char>, nat), DecodeError> {
    match parse_field(b, at, limit) {
        Err(e) => Err(e),
        Ok((s, next)) => if valid_utf8(s) {
            Ok((decode_utf8(s), next))
        } else {
            Err(DecodeError::Malformed)
        },
    }
}

/// The request at the start of `b` and its length in bytes, read under `limit`.
pub open spec fn parse_request(b: Seq<u8>, limit: nat) -> Result<(RequestView, nat), DecodeError> {
    match parse_uint(b, 0, 4, limit) {
        Err(e) => Err(e),
        Ok(tag) => if tag == 0 {
            match parse_text(b, 4, limit) {
                Err(e) => Err(e),
                Ok((agent, p)) => match parse_field(b, p, limit) {
                    Err(e) => Err(e),
                    Ok((key, q)) => if key.len() == KEY_LENGTH {
                        Ok((RequestView::Connect { agent, key }, q))
                    } else {
                        Err(DecodeError::Malformed)
                    },
                },
            }
        } else if tag == 1 {
            Ok((RequestView::Login, 4))
        } else {
            Err(DecodeError::Malformed)
        },
    }
}

/// The response at the start of `b` and its length in bytes, read under `limit`.
pub open spec fn parse_response(b: Seq<u8>, limit: nat) -> Result<(ResponseView, nat), DecodeError> {
    match parse_uint(b, 0, 4, limit) {
        Err(e) => Err(e),
        Ok(tag) => if tag == 0 {
            match parse_text(b, 4, limit) {
                Err(e) => Err(e),
                Ok((server, p)) => Ok((ResponseView::Connected { server }, p)),
            }
        } else if tag == 1 {
            Ok((ResponseView::LoginSuccessful, 4))
        } else {
            Err(DecodeError::Malformed)
        },
    }
}

// ---------------------------------------------------------------------------
// Lemmas on the integer layout.

pub proof fn lemma_radix_8()
    ensures
        radix(8) == 0x1_0000_0000_0000_0000,
        radix(4) == 0x1_0000_0000,
{
    reveal_with_fuel(radix, 9);
}

pub proof fn lemma_le_bytes(n: nat, k: nat)
    ensures
        le_bytes(n, k).len() == k,
        n < radix(k) ==> le_value(le_bytes(n, k)) == n,
    decreases k,
{
    if k > 0 {
        let k1 = (k - 1) as nat;
        lemma_le_bytes(n / 256, k1);
        let s = le_bytes(n, k);
        assert(s.drop_first() =~= le_bytes(n / 256, k1));
    }
}

/// The parts of a concatenation are found again at their offsets.
proof fn lemma_subrange_of_concat(a: Seq<u8>, x: Seq<u8>, rest: Seq<u8>)
    ensures
        (a + x + rest).subrange(a.len() as int, (a.len() + x.len()) as int) =~= x,
        (a + x + rest).subrange(0, a.len() as int) =~= a,
{
}

proof fn lemma_parse_uint_at(a: Seq<u8>, n: nat, k: nat, rest: Seq<u8>, limit: nat)
    requires
        n < radix(k),
    ensures
        parse_uint(a + le_bytes(n, k) + rest, a.len(), k, limit) == (if a.len() + k > limit {
            Err::<nat, DecodeError>(DecodeError::FrameTooLarge)
        } else {
            Ok::<nat, DecodeError>(n)
        }),
{
    lemma_le_bytes(n, k);
    lemma_subrange_of_concat(a, le_bytes(n, k), rest);
}

proof fn lemma_parse_field_at(a: Seq<u8>, x: Seq<u8>, rest: Seq<u8>, limit: nat)
    requires
        x.len() < radix(8),
    ensures
        parse_field(a + field_bytes(x) + rest, a.len(), limit) == (if a.len() + 8 + x.len() > limit {
            Err::<(Seq<u8>, nat), DecodeError>(DecodeError::FrameTooLarge)
        } else {
            Ok::<(Seq<u8>, nat), DecodeError>((x, a.len() + 8 + x.len()))
        }),
{
    let l8 = le_bytes(x.len(), 8);
    lemma_le_bytes(x.len(), 8);
    assert(a + field_bytes(x) + rest =~= a + l8 + (x + rest));
    lemma_parse_uint_at(a, x.len(), 8, x + rest, limit);
    assert(a + field_bytes(x) + rest =~= (a + l8) + x + rest);
    lemma_subrange_of_concat(a + l8, x, rest);
}

proof fn lemma_parse_request_bytes(v: RequestView, rest: Seq<u8>, limit: nat)
    requires
        request_valid(v),
        request_bytes(v).len() <= usize::MAX,
    ensures
        parse_request(request_bytes(v) + rest, limit) == (if request_bytes(v).len() > limit {
            Err::<(RequestView, nat), DecodeError>(DecodeError::FrameTooLarge)
        } else {
            Ok::<(RequestView, nat), DecodeError>((v, request_bytes(v).len()))
        }),
{
    lemma_radix_8();
    lemma_le_bytes(0, 4);
    lemma_le_bytes(1, 4);
    let b = request_bytes(v) + rest;
    let e = Seq::<u8>::empty();
    match v {
        RequestView::Connect { agent, key } => {
            let t = le_bytes(0, 4);
            let ea = encode_utf8(agent);
            let fa = field_bytes(ea);
            let fk = field_bytes(key);
            lemma_le_bytes(ea.len(), 8);
            lemma_le_bytes(key.len(), 8);
            assert(b =~= e + t + (fa + fk + rest));
            lemma_parse_uint_at(e, 0, 4, fa + fk + rest, limit);
            assert(b =~= t + fa + (fk + rest));
            lemma_parse_field_at(t, ea, fk + rest, limit);
            encode_utf8_valid_utf8(agent);
            encode_utf8_decode_utf8(agent);
            assert(b =~= (t + fa) + fk + rest);
            lemma_parse_field_at(t + fa, key, rest, limit);
        },
        RequestView::Login => {
            assert(b =~= e + le_bytes(1, 4) + rest);
            lemma_parse_uint_at(e, 1, 4, rest, limit);
        },
    }
}

proof fn lemma_parse_response_bytes(v: ResponseView, rest: Seq<u8>, limit: nat)
    requires
        response_bytes(v).len() <= usize::MAX,
    ensures
        parse_response(response_bytes(v) + rest, limit) == (if response_bytes(v).len() > limit {
            Err::<(ResponseView, nat), DecodeError>(DecodeError::FrameTooLarge)
        } else {
            Ok::<(ResponseView, nat), DecodeError>((v, response_bytes(v).len()))
        }),
{
    lemma_radix_8();
    lemma_le_bytes(0, 4);
    lemma_le_bytes(1, 4);
    let b = response_bytes(v) + rest;
    let e = Seq::<u8>::empty();
    match v {
        ResponseView::Connected { server } => {
            let t = le_bytes(0, 4);
            let es = encode_utf8(server);
            let fs = field_bytes(es);
            lemma_le_bytes(es.len(), 8);
            assert(b =~= e + t + (fs + rest));
            lemma_parse_uint_at(e, 0, 4, fs + rest, limit);
            assert(b =~= t + fs + rest);
            lemma_parse_field_at(t, es, rest, limit);
            encode_utf8_valid_utf8(server);
            encode_utf8_decode_utf8(server);
        },
        ResponseView::LoginSuccessful => {
            assert(b =~= e + le_bytes(1, 4) + rest);
            lemma_parse_uint_at(e, 1, 4, rest, limit);
        },
    }
}

/// Decoding the frame of a request gives back that request and the frame's
/// length, whatever bytes follow the frame, whenever the frame fits the limit.
pub proof fn lemma_request_round_trip(r: RequestView, rest: Seq<u8>, limit: nat)
    requires
        request_valid(r),
        request_bytes(r).len() <= limit,
        limit <= usize::MAX,
    ensures
        parse_request(request_bytes(r) + rest, limit) == Ok::<(RequestView, nat), DecodeError>(
            (r, request_bytes(r).len()),
        ),
{
    lemma_parse_request_bytes(r, rest, limit);
}

/// Decoding the frame of a response gives back that response and the frame's
/// length, whatever bytes follow the frame, whenever the frame fits the limit.
pub proof fn lemma_response_round_trip(r: ResponseView, rest: Seq<u8>, limit: nat)
    requires
        response_bytes(r).len() <= limit,
        limit <= usize::MAX,
    ensures
        parse_response(response_bytes(r) + rest, limit) == Ok::<(ResponseView, nat), DecodeError>(
            (r, response_bytes(r).len()),
        ),
{
    lemma_parse_response_bytes(r, rest, limit);
}

/// A request frame longer than the limit is refused as too large, before any
/// byte past the limit is read.
pub proof fn lemma_request_frame_bound(r: RequestView, rest: Seq<u8>, limit: nat)
    requires
        request_valid(r),
        limit < request_bytes(r).len() <= usize::MAX,
    ensures
        parse_request(request_bytes(r) + rest, limit) == Err::<(RequestView, nat), DecodeError>(
            DecodeError::FrameTooLarge,
        ),
{
    lemma_parse_request_bytes(r, rest, limit);
}

/// A response frame longer than the limit is refused as too large, before any
/// byte past the limit is read.
pub proof fn lemma_response_frame_bound(r: ResponseView, rest: Seq<u8>, limit: nat)
    requires
        limit < response_bytes(r).len() <= usize::MAX,
    ensures
        parse_response(response_bytes(r) + rest, limit) == Err::<(ResponseView, nat), DecodeError>(
            DecodeError::FrameTooLarge,
        ),
{
    lemma_parse_response_bytes(r, rest, limit);
}

// ---------------------------------------------------------------------------
// Executable codec.

fn copy_range(b: &[u8], from: usize, to: usize) -> (r: Vec<u8>)
    requires
        from <= to <= b@.len(),
    ensures
        r@ == b@.subrange(from as int, to as int),
{
    let mut r: Vec<u8> = Vec::new();
    let mut i: usize = from;
    while i < to
        invariant
            from <= i <= to <= b@.len(),
            r@ == b@.subrange(from as int, i as int),
        decreases to - i,
    {
        r.push(b[i]);
        i = i + 1;
        assert(r@ =~= b@.subrange(from as int, i as int));
    }
    r
}

fn push_all(out: &mut Vec<u8>, b: &[u8])
    ensures
        final(out)@ == old(out)@ + b@,
{
    let mut i: usize = 0;
    while i < b.len()
        invariant
            i <= b@.len(),
            out@ == old(out)@ + b@.subrange(0, i as int),
        decreases b@.len() - i,
    {
        out.push(b[i]);
        i = i + 1;
        assert(out@ =~= old(out)@ + b@.subrange(0, i as int));
    }
    assert(b@.subrange(0, b@.len() as int) =~= b@);
}

fn write_uint(out: &mut Vec<u8>, n: u64, k: usize)
    requires
        n < radix(k as nat),
    ensures
        final(out)@ == old(out)@ + le_bytes(n as nat, k as nat),
{
    let mut cur: u64 = n;
    let mut i: usize = 0;
    while i < k
        invariant
            i <= k,
            out@ + le_bytes(cur as nat, (k - i) as nat) == old(out)@ + le_bytes(n as nat, k as nat),
        decreases k - i,
    {
        let ghost before = out@;
        let ghost old_cur = cur as nat;
        let ghost rest = le_bytes(old_cur / 256, (k - i - 1) as nat);
        assert(le_bytes(old_cur, (k - i) as nat) == seq![(old_cur % 256) as u8] + rest);
        out.push((cur % 256) as u8);
        cur = cur / 256;
        i = i + 1;
        assert(out@ + rest =~= before + (seq![(old_cur % 256) as u8] + rest));
    }
    assert(le_bytes(cur as nat, 0) =~= Seq::<u8>::empty());
    assert(out@ + Seq::<u8>::empty() =~= out@);
}

fn write_field(out: &mut Vec<u8>, b: &[u8])
    ensures
        final(out)@ == old(out)@ + field_bytes(b@),
{
    proof {
        lemma_radix_8();
    }
    write_uint(out, b.len() as u64, 8);
    push_all(out, b);
    assert(final(out)@ =~= old(out)@ + field_bytes(b@));
}

fn text_bytes(s: &String) -> (r: &[u8])
    ensures
        r@ == encode_utf8(s@),
{
    s.as_str().as_bytes()
}

/// Relies on `String::from_utf8`: it succeeds exactly on valid UTF-8, and the
/// string then holds the characters those bytes encode.
#[verifier::external_body]
fn string_from_utf8(b: Vec<u8>) -> (r: Option<String>)
    ensures
        r is Some <==> valid_utf8(b@),
        r matches Some(s) ==> s@ == decode_utf8(b@),
{
    String::from_utf8(b).ok()
}

proof fn lemma_radix_mono(a: nat, b: nat)
    requires
        a <= b,
    ensures
        radix(a) <= radix(b),
    decreases b,
{
    if a < b {
        lemma_radix_mono(a, (b - 1) as nat);
    }
}

fn read_uint(b: &[u8], at: usize, k: usize, limit: usize) -> (r: Result<u64, DecodeError>)
    requires
        k <= 8,
    ensures
        r matches Ok(v) ==> parse_uint(b@, at as nat, k as nat, limit as nat) == Ok::<nat, DecodeError>(v as nat),
        r matches Err(e) ==> parse_uint(b@, at as nat, k as nat, limit as nat) == Err::<nat, DecodeError>(e),
{
    if k > limit || at > limit - k {
        return Err(DecodeError::FrameTooLarge);
    }
    if k > b.len() || at > b.len() - k {
        return Err(DecodeError::Incomplete);
    }
    proof {
        lemma_radix_8();
        lemma_radix_mono(k as nat, 8);
    }
    let mut v: u64 = 0;
    let mut i: usize = k;
    assert(b@.subrange((at + k) as int, (at + k) as int) =~= Seq::<u8>::empty());
    while i > 0
        invariant
            i <= k <= 8,
            at + k <= b@.len() <= usize::MAX,
            radix(k as nat) <= radix(8),
            radix(8) == 0x1_0000_0000_0000_0000,
            v as nat == le_value(b@.subrange((at + i) as int, (at + k) as int)),
            (v as nat) < radix((k - i) as nat),
        decreases i,
    {
        let ghost old_v = v as nat;
        i = i - 1;
        let ghost s = b@.subrange((at + i) as int, (at + k) as int);
        assert(s.drop_first() =~= b@.subrange((at + i + 1) as int, (at + k) as int));
        proof {
            lemma_radix_mono((k - i) as nat, k as nat);
        }
        assert(radix((k - i) as nat) == 256 * radix((k - i - 1) as nat));
        v = v * 256 + b[at + i] as u64;
    }
    Ok(v)
}

fn read_field(b: &[u8], at: usize, limit: usize) -> (r: Result<(Vec<u8>, usize), DecodeError>)
    ensures
        r matches Ok((x, next)) ==> parse_field(b@, at as nat, limit as nat) == Ok::<(Seq<u8>, nat), DecodeError>((x@, next as nat)),
        r matches Err(e) ==> parse_field(b@, at as nat, limit as nat) == Err::<(Seq<u8>, nat), DecodeError>(e),
{
    let len = match read_uint(b, at, 8, limit) {
        Ok(len) => len,
        Err(e) => return Err(e),
    };
    let start = at + 8;
    if len > (limit - start) as u64 {
        return Err(DecodeError::FrameTooLarge);
    }
    let end = start + len as usize;
    if end > b.len() {
        return Err(DecodeError::Incomplete);
    }
    Ok((copy_range(b, start, end), end))
}

fn read_text(b: &[u8], at: usize, limit: usize) -> (r: Result<(String, usize), DecodeError>)
    ensures
        r matches Ok((x, next)) ==> parse_text(b@, at as nat, limit as nat) == Ok::<(Seq<char>, nat), DecodeError>((x@, next as nat)),
        r matches Err(e) ==> parse_text(b@, at as nat, limit as nat) == Err::<(Seq<char>, nat), DecodeError>(e),
{
    match read_field(b, at, limit) {
        Err(e) => Err(e),
        Ok((x, next)) => match string_from_utf8(x) {
            Some(s) => Ok((s, next)),
            None => Err(DecodeError::Malformed),
        },
    }
}

impl Request {
    /// The frame that carries this request.
    pub fn encode(&self) -> (r: Vec<u8>)
        ensures
            r@ == request_bytes(self@),
    {
        let mut out: Vec<u8> = Vec::new();
        proof {
            lemma_radix_8();
        }
        match self {
            Request::Connect { agent, key } => {
                write_uint(&mut out, 0, 4);
                write_field(&mut out, text_bytes(agent));
                write_field(&mut out, key.bytes.as_slice());
                assert(out@ =~= request_bytes(self@));
            },
            Request::Login => {
                write_uint(&mut out, 1, 4);
                assert(out@ =~= request_bytes(self@));
            },
        }
        out
    }

    /// Reads the request at the start of `b`, with its length in bytes,
    /// reading no byte at or past `limit`.
    pub fn decode(b: &[u8], limit: usize) -> (r: Result<(Request, usize), DecodeError>)
        ensures
            r matches Ok((q, n)) ==> parse_request(b@, limit as nat) == Ok::<(RequestView, nat), DecodeError>((q@, n as nat)),
            r matches Err(e) ==> parse_request(b@, limit as nat) == Err::<(RequestView, nat), DecodeError>(e),
    {
        let tag = match read_uint(b, 0, 4, limit) {
            Ok(t) => t,
            Err(e) => return Err(e),
        };
        if tag == 0 {
            let (agent, p) = match read_text(b, 4, limit) {
                Ok(x) => x,
                Err(e) => return Err(e),
            };
            let (key, q) = match read_field(b, p, limit) {
                Ok(x) => x,
                Err(e) => return Err(e),
            };
            if key.len() != KEY_LENGTH {
                return Err(DecodeError::Malformed);
            }
            Ok((Request::Connect { agent, key: PeerKey { bytes: key } }, q))
        } else if tag == 1 {
            Ok((Request::Login, 4))
        } else {
            Err(DecodeError::Malformed)
        }
    }
}

impl Response {
    /// The frame that carries this response.
    pub fn encode(&self) -> (r: Vec<u8>)
        ensures
            r@ == response_bytes(self@),
    {
        let mut out: Vec<u8> = Vec::new();
        proof {
            lemma_radix_8();
        }
        match self {
            Response::Connected { server } => {
                write_uint(&mut out, 0, 4);
                write_field(&mut out, text_bytes(server));
                assert(out@ =~= response_bytes(self@));
            },
            Response::LoginSuccessful => {
                write_uint(&mut out, 1, 4);
                assert(out@ =~= response_bytes(self@));
            },
        }
        out
    }

    /// Reads the response at the start of `b`, with its length in bytes,
    /// reading no byte at or past `limit`.
    pub fn decode(b: &[u8], limit: usize) -> (r: Result<(Response, usize), DecodeError>)
        ensures
            r matches Ok((q, n)) ==> parse_response(b@, limit as nat) == Ok::<(ResponseView, nat), DecodeError>((q@, n as nat)),
            r matches Err(e) ==> parse_response(b@, limit as nat) == Err::<(ResponseView, nat), DecodeError>(e),
    {
        let tag = match read_uint(b, 0, 4, limit) {
            Ok(t) => t,
            Err(e) => return Err(e),
        };
        if tag == 0 {
            match read_text(b, 4, limit) {
                Ok((server, p)) => Ok((Response::Connected { server }, p)),
                Err(e) => Err(e),
            }
        } else if tag == 1 {
            Ok((Response::LoginSuccessful, 4))
        } else {
            Err(DecodeError::Malformed)
        }
    }
}

} // verus!
