//! The wire framing shared by the host and the guest agent: a 4-byte
//! big-endian length followed by that many payload bytes.
use vstd::prelude::*;

verus! {

/// The big-endian bytes of `n` (`u32::to_be_bytes`).
pub open spec fn be_bytes(n: u32) -> Seq<u8> {
    seq![(n >> 24u32) as u8, (n >> 16u32) as u8, (n >> 8u32) as u8, n as u8]
}

/// The number whose big-endian bytes are `b0 b1 b2 b3` (`u32::from_be_bytes`).
pub open spec fn be_value(b0: u8, b1: u8, b2: u8, b3: u8) -> u32 {
    ((b0 as u32) << 24u32) | ((b1 as u32) << 16u32) | ((b2 as u32) << 8u32) | (b3 as u32)
}

/// The frame that carries `payload`: its length, truncated to 32 bits as the
/// sender's `as u32` does, then the payload.
pub open spec fn frame_of(payload: Seq<u8>) -> Seq<u8> {
    be_bytes(payload.len() as u32) + payload
}

/// The first complete frame at the start of `buf`: its payload and the number
/// of bytes it takes, or `None` when `buf` does not yet hold a whole frame.
pub open spec fn first_frame(buf: Seq<u8>) -> Option<(Seq<u8>, nat)> {
    if buf.len() < 4 {
        None
    } else {
        let n = be_value(buf[0], buf[1], buf[2], buf[3]) as nat;
        if buf.len() < 4 + n {
            None
        } else {
            Some((buf.subrange(4, 4 + n as int), 4 + n))
        }
    }
}

proof fn lemma_be_roundtrip(n: u32)
    ensures
        be_value((n >> 24u32) as u8, (n >> 16u32) as u8, (n >> 8u32) as u8, n as u8) == n,
{
    assert(((((n >> 24u32) as u8) as u32) << 24u32) | ((((n >> 16u32) as u8) as u32) << 16u32) | ((((
    n >> 8u32) as u8) as u32) << 8u32) | ((n as u8) as u32) == n) by (bit_vector);
}

proof fn lemma_be_bytes_roundtrip(b0: u8, b1: u8, b2: u8, b3: u8)
    ensures
        be_bytes(be_value(b0, b1, b2, b3)) == seq![b0, b1, b2, b3],
{
    let v = be_value(b0, b1, b2, b3);
    assert((v >> 24u32) as u8 == b0 && (v >> 16u32) as u8 == b1 && (v >> 8u32) as u8 == b2 && v as u8
        == b3) by (bit_vector)
        requires
            v == ((b0 as u32) << 24u32) | ((b1 as u32) << 16u32) | ((b2 as u32) << 8u32) | (
            b3 as u32),
    ;
    assert(be_bytes(v) =~= seq![b0, b1, b2, b3]);
}

/// The length announced by a frame header.
pub fn frame_len(header: [u8; 4]) -> (n: u32)
    ensures
        n == be_value(header@[0], header@[1], header@[2], header@[3]),
{
    ((header[0] as u32) << 24u32) | ((header[1] as u32) << 16u32) | ((header[2] as u32) << 8u32) | (
    header[3] as u32)
}

/// The header announcing `len` payload bytes (truncated to 32 bits).
pub fn frame_header(len: usize) -> (h: [u8; 4])
    ensures
        h@ == be_bytes(len as u32),
{
    let n = len as u32;
    let h = [(n >> 24u32) as u8, (n >> 16u32) as u8, (n >> 8u32) as u8, n as u8];
    assert(h@ =~= be_bytes(len as u32));
    h
}

/// The bytes sent for `payload`: header, then payload.
pub fn encode_frame(payload: &[u8]) -> (out: Vec<u8>)
    ensures
        out@ == frame_of(payload@),
{
    let h = frame_header(payload.len());
    let mut out: Vec<u8> = Vec::new();
    out.push(h[0]);
    out.push(h[1]);
    out.push(h[2]);
    out.push(h[3]);
    let mut i: usize = 0;
    while i < payload.len()
        invariant
            i <= payload.len(),
            out@ == h@ + payload@.take(i as int),
        decreases payload.len() - i,
    {
        out.push(payload[i]);
        assert(h@ + payload@.take(i as int).push(payload@[i as int]) =~= h@ + payload@.take(i + 1));
        i += 1;
    }
    assert(payload@.take(payload.len() as int) =~= payload@);
    out
}

/// Reads the first whole frame out of `buf`.
pub fn decode_frame(buf: &[u8]) -> (r: Option<(Vec<u8>, usize)>)
    ensures
        match (r, first_frame(buf@)) {
            (None, None) => true,
            (Some((p, k)), Some((q, m))) => p@ == q && k == m,
            _ => false,
        },
{
    if buf.len() < 4 {
        return None;
    }
    let n = frame_len([buf[0], buf[1], buf[2], buf[3]]) as usize;
    if buf.len() - 4 < n {
        return None;
    }
    let mut p: Vec<u8> = Vec::new();
    let mut i: usize = 0;
    while i < n
        invariant
            i <= n,
            4 + n <= buf.len(),
            p@ == buf@.subrange(4, 4 + i as int),
        decreases n - i,
    {
        p.push(buf[4 + i]);
        assert(buf@.subrange(4, 4 + i as int).push(buf@[4 + i as int]) =~= buf@.subrange(
            4,
            4 + i + 1,
        ));
        i += 1;
    }
    Some((p, 4 + n))
}

/// Law: a frame read back from the start of a buffer gives the payload that
/// was framed, whatever follows it, provided the length fits in 32 bits.
pub proof fn law_frame_roundtrip(payload: Seq<u8>, rest: Seq<u8>)
    requires
        payload.len() <= u32::MAX,
    ensures
        first_frame(frame_of(payload) + rest) == Some((payload, 4 + payload.len())),
{
    let buf = frame_of(payload) + rest;
    let n = payload.len() as u32;
    lemma_be_roundtrip(n);
    assert(buf[0] == (n >> 24u32) as u8);
    assert(buf[1] == (n >> 16u32) as u8);
    assert(buf[2] == (n >> 8u32) as u8);
    assert(buf[3] == n as u8);
    assert(buf.subrange(4, 4 + payload.len() as int) =~= payload);
}

/// Law: the bytes a frame was read from are exactly the framing of what was
/// read (each payload has one encoding).
pub proof fn law_frame_unique(buf: Seq<u8>)
    ensures
        first_frame(buf) matches Some((p, k)) ==> frame_of(p) == buf.subrange(0, k as int),
{
    if let Some((p, k)) = first_frame(buf) {
        lemma_be_bytes_roundtrip(buf[0], buf[1], buf[2], buf[3]);
        let v = be_value(buf[0], buf[1], buf[2], buf[3]);
        assert(p.len() == v as nat);
        assert((p.len() as u32) == v);
        assert(frame_of(p) =~= buf.subrange(0, k as int));
    }
}

} // verus!
