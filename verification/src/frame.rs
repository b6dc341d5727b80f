//! Length-prefixed framing: every wire message is a 4-byte big-endian length
//! followed by that many payload bytes. Oversize lengths are rejected; a
//! zero-length frame is the terminator of a chunked body.

use vstd::prelude::*;

verus! {

/// Largest payload a frame may carry: 64 MiB.
pub const MAX_FRAME_SIZE: u32 = 64 * 1024 * 1024;

/// Why a frame could not be encoded or decoded.
#[derive(Clone, Copy, Debug, PartialEq, Eq, Structural)]
pub enum FrameError {
    /// The declared or actual payload length exceeds `MAX_FRAME_SIZE`.
    Oversize,
    /// The buffer ends before the declared payload does.
    Truncated,
}

/// The integer value of four big-endian bytes.
pub open spec fn be32(b: Seq<u8>) -> nat
    recommends
        b.len() == 4,
{
    (b[0] as nat) * 0x1000000 + (b[1] as nat) * 0x10000 + (b[2] as nat) * 0x100 + (b[3] as nat)
}

/// The four big-endian bytes of a 32-bit value.
pub open spec fn be32_bytes(n: u32) -> Seq<u8> {
    seq![
        (n / 0x1000000) as u8,
        ((n / 0x10000) % 0x100) as u8,
        ((n / 0x100) % 0x100) as u8,
        (n % 0x100) as u8,
    ]
}

/// A whole frame: the big-endian length prefix, then the payload.
pub open spec fn spec_frame(payload: Seq<u8>) -> Seq<u8>
    recommends
        payload.len() <= MAX_FRAME_SIZE,
{
    be32_bytes(payload.len() as u32) + payload
}

/// The length prefix decodes back to the length it was made from.
pub proof fn lemma_be32_round_trip(n: u32)
    ensures
        be32(be32_bytes(n)) == n,
{
    assert((n / 0x1000000) as u8 == n / 0x1000000) by (bit_vector);
    assert(((n / 0x10000) % 0x100) as u8 == (n / 0x10000) % 0x100) by (bit_vector);
    assert(((n / 0x100) % 0x100) as u8 == (n / 0x100) % 0x100) by (bit_vector);
    assert((n % 0x100) as u8 == n % 0x100) by (bit_vector);
    assert((n / 0x1000000) * 0x1000000 + ((n / 0x10000) % 0x100) * 0x10000 + ((n / 0x100)
        % 0x100) * 0x100 + (n % 0x100) == n) by (bit_vector);
}

/// Encode the length prefix of a payload of `n` bytes.
pub fn encode_len(n: u32) -> (r: Vec<u8>)
    ensures
        r@ == be32_bytes(n),
{
    let mut v: Vec<u8> = Vec::new();
    v.push((n / 0x1000000) as u8);
    v.push(((n / 0x10000) % 0x100) as u8);
    v.push(((n / 0x100) % 0x100) as u8);
    v.push((n % 0x100) as u8);
    proof {
        assert(v@ =~= be32_bytes(n));
    }
    v
}

/// Read a length prefix from four bytes.
pub fn decode_len(b0: u8, b1: u8, b2: u8, b3: u8) -> (r: u32)
    ensures
        r == be32(seq![b0, b1, b2, b3]),
{
    let r: u32 = (b0 as u32) * 0x1000000 + (b1 as u32) * 0x10000 + (b2 as u32) * 0x100 + (b3
        as u32);
    r
}

/// Frame a payload: length prefix, then the bytes, refusing oversize payloads.
pub fn encode_frame(payload: &Vec<u8>) -> (r: Result<Vec<u8>, FrameError>)
    ensures
        payload@.len() <= MAX_FRAME_SIZE ==> (r matches Ok(v) && v@ == spec_frame(payload@)),
        payload@.len() > MAX_FRAME_SIZE ==> (r matches Err(e) && e == FrameError::Oversize),
{
    if payload.len() > MAX_FRAME_SIZE as usize {
        return Err(FrameError::Oversize);
    }
    let mut out = encode_len(payload.len() as u32);
    let mut i: usize = 0;
    while i < payload.len()
        invariant
            i <= payload@.len(),
            payload@.len() <= MAX_FRAME_SIZE,
            out@ == be32_bytes(payload@.len() as u32) + payload@.subrange(0, i as int),
        decreases payload@.len() - i,
    {
        out.push(payload[i]);
        i = i + 1;
        proof {
            assert(out@ =~= be32_bytes(payload@.len() as u32) + payload@.subrange(0, i as int));
        }
    }
    proof {
        assert(payload@.subrange(0, payload@.len() as int) =~= payload@);
    }
    Ok(out)
}

/// Decode one frame from `buf` starting at `pos`.
///
/// `Ok(None)` is a clean end of stream: fewer than four bytes remain. A
/// declared length over `MAX_FRAME_SIZE` is `Oversize`; a declared length that
/// runs past the end of the buffer is `Truncated`. Otherwise the payload and
/// the position just after it are returned.
pub fn decode_frame(buf: &Vec<u8>, pos: usize) -> (r: Result<Option<(Vec<u8>, usize)>, FrameError>)
    requires
        pos <= buf@.len(),
    ensures
        match r {
            Ok(out) => match out {
                Some(item) => {
                    &&& buf@.len() - pos >= 4
                    &&& be32(buf@.subrange(pos as int, pos + 4)) <= MAX_FRAME_SIZE
                    &&& item.1 == pos + 4 + be32(buf@.subrange(pos as int, pos + 4))
                    &&& item.1 <= buf@.len()
                    &&& item.0@ == buf@.subrange(pos + 4, item.1 as int)
                },
                None => buf@.len() - pos < 4,
            },
            Err(e) => {
                &&& buf@.len() - pos >= 4
                &&& (e == FrameError::Oversize <==> be32(
                    buf@.subrange(pos as int, pos + 4),
                ) > MAX_FRAME_SIZE)
                &&& (e == FrameError::Truncated <==> be32(
                    buf@.subrange(pos as int, pos + 4),
                ) <= MAX_FRAME_SIZE && pos + 4 + be32(buf@.subrange(pos as int, pos + 4))
                    > buf@.len())
            },
        },
{
    if buf.len() - pos < 4 {
        return Ok(None);
    }
    let len = decode_len(buf[pos], buf[pos + 1], buf[pos + 2], buf[pos + 3]);
    proof {
        assert(seq![buf@[pos as int], buf@[pos + 1], buf@[pos + 2], buf@[pos + 3]] =~= buf@
            .subrange(pos as int, pos + 4));
    }
    if len > MAX_FRAME_SIZE {
        return Err(FrameError::Oversize);
    }
    if (len as usize) > buf.len() - (pos + 4) {
        return Err(FrameError::Truncated);
    }
    let end: usize = pos + 4 + len as usize;
    let mut payload: Vec<u8> = Vec::new();
    let mut i: usize = pos + 4;
    while i < end
        invariant
            pos + 4 <= i <= end,
            end <= buf@.len(),
            payload@ == buf@.subrange(pos + 4, i as int),
        decreases end - i,
    {
        payload.push(buf[i]);
        i = i + 1;
        proof {
            assert(payload@ =~= buf@.subrange(pos + 4, i as int));
        }
    }
    Ok(Some((payload, end)))
}

/// Framing round trip: a frame decodes to exactly the payload it was made
/// from, and consumes exactly the frame's bytes, whatever follows it.
pub proof fn lemma_frame_round_trip(payload: Seq<u8>, rest: Seq<u8>)
    requires
        payload.len() <= MAX_FRAME_SIZE,
    ensures
        ({
            let buf = spec_frame(payload) + rest;
            &&& buf.subrange(0, 4) =~= be32_bytes(payload.len() as u32)
            &&& be32(buf.subrange(0, 4)) == payload.len()
            &&& buf.subrange(4, 4 + payload.len() as int) =~= payload
        }),
{
    let buf = spec_frame(payload) + rest;
    assert(buf.subrange(0, 4) =~= be32_bytes(payload.len() as u32));
    lemma_be32_round_trip(payload.len() as u32);
    assert(buf.subrange(4, 4 + payload.len() as int) =~= payload);
}

} // verus!
