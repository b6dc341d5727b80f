//! Deterministic byte codec for the header protocol.
//!
//! Every message is a concatenation of fields; a string field is a 4-byte
//! big-endian byte count followed by the string's UTF-8 bytes, a status code
//! is 2 bytes big-endian, and a body format is one tag byte. Decoding accepts
//! exactly the encodings: any leftover byte, invalid UTF-8, or unknown tag is
//! rejected.

use vstd::prelude::*;
use vstd::string::StrSliceExecFns;
use vstd::utf8::decode_utf8;
use vstd::utf8::encode_utf8;
use vstd::utf8::encode_utf8_decode_utf8;
use vstd::utf8::encode_utf8_valid_utf8;
use vstd::utf8::valid_utf8;

use crate::frame::be32;
use crate::frame::be32_bytes;
use crate::frame::lemma_be32_round_trip;
use crate::frame::spec_frame;
use crate::frame::FrameError;
use crate::frame::MAX_FRAME_SIZE;
use crate::frame::{decode_len, encode_len};
use crate::types::BodyFormat;
use crate::types::{HandshakeRequest, HandshakeRequestV};
use crate::types::{HandshakeResponse, HandshakeResponseV};
use crate::types::{RequestHeaders, RequestHeadersV};
use crate::types::{ResponseHeaders, ResponseHeadersV};

verus! {

/// Relies on `String::from_utf8`: it succeeds exactly on valid UTF-8 input
/// and returns the string those bytes encode.
#[verifier::external_body]
fn bytes_to_string(bytes: Vec<u8>) -> (r: Option<String>)
    ensures
        match r {
            Some(s) => valid_utf8(bytes@) && s@ == decode_utf8(bytes@),
            None => !valid_utf8(bytes@),
        },
{
    match String::from_utf8(bytes) {
        Ok(s) => Some(s),
        Err(_) => None,
    }
}

/// The UTF-8 bytes of a string.
fn str_bytes(s: &str) -> (r: Vec<u8>)
    ensures
        r@ == encode_utf8(s@),
{
    s.as_bytes_vec()
}

// ---------------------------------------------------------------------------
// Field encodings, spec level.
// ---------------------------------------------------------------------------
/// A string field: byte count, then UTF-8 bytes.
pub open spec fn spec_encode_str(s: Seq<char>) -> Seq<u8> {
    spec_frame(encode_utf8(s))
}

/// The two big-endian bytes of a 16-bit value.
pub open spec fn be16_bytes(n: u16) -> Seq<u8> {
    seq![(n / 0x100) as u8, (n % 0x100) as u8]
}

/// The integer value of two big-endian bytes.
pub open spec fn be16(b: Seq<u8>) -> nat
    recommends
        b.len() == 2,
{
    (b[0] as nat) * 0x100 + (b[1] as nat)
}

/// The tag byte of a body format.
pub open spec fn body_format_byte(f: BodyFormat) -> u8 {
    match f {
        BodyFormat::Null => 0,
        BodyFormat::Bytes => 1,
        BodyFormat::Chunk => 2,
    }
}

// ---------------------------------------------------------------------------
// Message encodings, spec level.
// ---------------------------------------------------------------------------
pub open spec fn spec_encode_handshake_request(v: HandshakeRequestV) -> Seq<u8> {
    spec_encode_str(v.sfn_name) + spec_encode_str(v.credential)
}

pub open spec fn spec_encode_handshake_response(v: HandshakeResponseV) -> Seq<u8> {
    be16_bytes(v.status_code) + spec_encode_str(v.error_msg)
}

pub open spec fn spec_encode_request_headers(v: RequestHeadersV) -> Seq<u8> {
    spec_encode_str(v.sfn_name) + spec_encode_str(v.trace_id) + spec_encode_str(v.request_id)
        + seq![body_format_byte(v.body_format)] + spec_encode_str(v.extension)
}

pub open spec fn spec_encode_response_headers(v: ResponseHeadersV) -> Seq<u8> {
    be16_bytes(v.status_code) + seq![body_format_byte(v.body_format)] + spec_encode_str(
        v.error_msg,
    ) + spec_encode_str(v.extension)
}

/// A message is encodable when its encoding fits in one frame.
pub open spec fn handshake_request_encodable(v: HandshakeRequestV) -> bool {
    spec_encode_handshake_request(v).len() <= MAX_FRAME_SIZE
}

pub open spec fn handshake_response_encodable(v: HandshakeResponseV) -> bool {
    spec_encode_handshake_response(v).len() <= MAX_FRAME_SIZE
}

pub open spec fn request_headers_encodable(v: RequestHeadersV) -> bool {
    spec_encode_request_headers(v).len() <= MAX_FRAME_SIZE
}

pub open spec fn response_headers_encodable(v: ResponseHeadersV) -> bool {
    spec_encode_response_headers(v).len() <= MAX_FRAME_SIZE
}

// ---------------------------------------------------------------------------
// Decoding, spec level.
// ---------------------------------------------------------------------------
/// Take one length-prefixed byte field at `pos`.
pub open spec fn spec_take_bytes(b: Seq<u8>, pos: int) -> Option<(Seq<u8>, int)> {
    if 0 <= pos && pos + 4 <= b.len() {
        let n = be32(b.subrange(pos, pos + 4)) as int;
        if pos + 4 + n <= b.len() {
            Some((b.subrange(pos + 4, pos + 4 + n), pos + 4 + n))
        } else {
            None
        }
    } else {
        None
    }
}

/// Take one string field at `pos`: a byte field that must be valid UTF-8.
pub open spec fn spec_take_str(b: Seq<u8>, pos: int) -> Option<(Seq<char>, int)> {
    match spec_take_bytes(b, pos) {
        Some((bs, end)) => if valid_utf8(bs) {
            Some((decode_utf8(bs), end))
        } else {
            None
        },
        None => None,
    }
}

/// Take a 16-bit big-endian field at `pos`.
pub open spec fn spec_take_u16(b: Seq<u8>, pos: int) -> Option<(u16, int)> {
    if 0 <= pos && pos + 2 <= b.len() {
        Some(((be16(b.subrange(pos, pos + 2)) as u16), pos + 2))
    } else {
        None
    }
}

/// Take a body-format tag byte at `pos`.
pub open spec fn spec_take_body_format(b: Seq<u8>, pos: int) -> Option<(BodyFormat, int)> {
    if 0 <= pos && pos < b.len() {
        if b[pos] == 0 {
            Some((BodyFormat::Null, pos + 1))
        } else if b[pos] == 1 {
            Some((BodyFormat::Bytes, pos + 1))
        } else if b[pos] == 2 {
            Some((BodyFormat::Chunk, pos + 1))
        } else {
            None
        }
    } else {
        None
    }
}

pub open spec fn spec_decode_handshake_request(b: Seq<u8>) -> Option<HandshakeRequestV> {
    match spec_take_str(b, 0) {
        Some((sfn_name, p1)) => match spec_take_str(b, p1) {
            Some((credential, p2)) => if p2 == b.len() {
                Some(HandshakeRequestV { sfn_name, credential })
            } else {
                None
            },
            None => None,
        },
        None => None,
    }
}

pub open spec fn spec_decode_handshake_response(b: Seq<u8>) -> Option<HandshakeResponseV> {
    match spec_take_u16(b, 0) {
        Some((status_code, p1)) => match spec_take_str(b, p1) {
            Some((error_msg, p2)) => if p2 == b.len() {
                Some(HandshakeResponseV { status_code, error_msg })
            } else {
                None
            },
            None => None,
        },
        None => None,
    }
}

pub open spec fn spec_decode_request_headers(b: Seq<u8>) -> Option<RequestHeadersV> {
    match spec_take_str(b, 0) {
        Some((sfn_name, p1)) => match spec_take_str(b, p1) {
            Some((trace_id, p2)) => match spec_take_str(b, p2) {
                Some((request_id, p3)) => match spec_take_body_format(b, p3) {
                    Some((body_format, p4)) => match spec_take_str(b, p4) {
                        Some((extension, p5)) => if p5 == b.len() {
                            Some(
                                RequestHeadersV {
                                    sfn_name,
                                    trace_id,
                                    request_id,
                                    body_format,
                                    extension,
                                },
                            )
                        } else {
                            None
                        },
                        None => None,
                    },
                    None => None,
                },
                None => None,
            },
            None => None,
        },
        None => None,
    }
}

pub open spec fn spec_decode_response_headers(b: Seq<u8>) -> Option<ResponseHeadersV> {
    match spec_take_u16(b, 0) {
        Some((status_code, p1)) => match spec_take_body_format(b, p1) {
            Some((body_format, p2)) => match spec_take_str(b, p2) {
                Some((error_msg, p3)) => match spec_take_str(b, p3) {
                    Some((extension, p4)) => if p4 == b.len() {
                        Some(ResponseHeadersV { status_code, body_format, error_msg, extension })
                    } else {
                        None
                    },
                    None => None,
                },
                None => None,
            },
            None => None,
        },
        None => None,
    }
}

// ---------------------------------------------------------------------------
// Exec encoding.
// ---------------------------------------------------------------------------
/// Append all of `b` to `out`.
fn append_bytes(out: &mut Vec<u8>, b: &Vec<u8>)
    ensures
        final(out)@ == old(out)@ + b@,
{
    let mut i: usize = 0;
    while i < b.len()
        invariant
            i <= b@.len(),
            out@ == old(out)@ + b@.subrange(0, i as int),
        decreases b@.len() - i,
    {
        out.push(b[i]);
        i = i + 1;
        proof {
            assert(out@ =~= old(out)@ + b@.subrange(0, i as int));
        }
    }
    proof {
        assert(old(out)@ + b@.subrange(0, b@.len() as int) =~= old(out)@ + b@);
    }
}

/// Append one length-prefixed byte field to `out`.
fn append_field(out: &mut Vec<u8>, b: &Vec<u8>)
    requires
        b@.len() <= u32::MAX,
    ensures
        final(out)@ == old(out)@ + spec_frame(b@),
{
    let prefix = encode_len(b.len() as u32);
    append_bytes(out, &prefix);
    append_bytes(out, b);
    proof {
        assert(old(out)@ + be32_bytes(b@.len() as u32) + b@ =~= old(out)@ + spec_frame(b@));
    }
}

/// Append a 16-bit big-endian field to `out`.
fn append_u16(out: &mut Vec<u8>, n: u16)
    ensures
        final(out)@ == old(out)@ + be16_bytes(n),
{
    out.push((n / 0x100) as u8);
    out.push((n % 0x100) as u8);
    proof {
        assert(out@ =~= old(out)@ + be16_bytes(n));
    }
}

/// The tag byte of a body format.
pub fn encode_body_format(f: &BodyFormat) -> (r: u8)
    ensures
        r == body_format_byte(*f),
{
    match f {
        BodyFormat::Null => 0,
        BodyFormat::Bytes => 1,
        BodyFormat::Chunk => 2,
    }
}

pub fn encode_handshake_request(h: &HandshakeRequest) -> (r: Result<Vec<u8>, FrameError>)
    ensures
        handshake_request_encodable(h@) ==> (r matches Ok(v) && v@ == spec_encode_handshake_request(
            h@,
        )),
        !handshake_request_encodable(h@) ==> (r matches Err(e) && e == FrameError::Oversize),
{
    let name = str_bytes(h.sfn_name.as_str());
    let cred = str_bytes(h.credential.as_str());
    let m = MAX_FRAME_SIZE as usize;
    if name.len() > m || cred.len() > m {
        return Err(FrameError::Oversize);
    }
    let total: usize = 4 + name.len() + 4 + cred.len();
    if total > m {
        return Err(FrameError::Oversize);
    }
    let mut out: Vec<u8> = Vec::new();
    append_field(&mut out, &name);
    append_field(&mut out, &cred);
    proof {
        assert(out@ =~= spec_encode_handshake_request(h@));
    }
    Ok(out)
}

pub fn encode_handshake_response(h: &HandshakeResponse) -> (r: Result<Vec<u8>, FrameError>)
    ensures
        handshake_response_encodable(h@) ==> (r matches Ok(v) && v@
            == spec_encode_handshake_response(h@)),
        !handshake_response_encodable(h@) ==> (r matches Err(e) && e == FrameError::Oversize),
{
    let msg = str_bytes(h.error_msg.as_str());
    let m = MAX_FRAME_SIZE as usize;
    if msg.len() > m {
        return Err(FrameError::Oversize);
    }
    let total: usize = 2 + 4 + msg.len();
    if total > m {
        return Err(FrameError::Oversize);
    }
    let mut out: Vec<u8> = Vec::new();
    append_u16(&mut out, h.status_code);
    append_field(&mut out, &msg);
    proof {
        assert(out@ =~= spec_encode_handshake_response(h@));
    }
    Ok(out)
}

#[verifier::rlimit(50)]
#[verifier::spinoff_prover]
pub fn encode_request_headers(h: &RequestHeaders) -> (r: Result<Vec<u8>, FrameError>)
    ensures
        request_headers_encodable(h@) ==> (r matches Ok(v) && v@ == spec_encode_request_headers(
            h@,
        )),
        !request_headers_encodable(h@) ==> (r matches Err(e) && e == FrameError::Oversize),
{
    let name = str_bytes(h.sfn_name.as_str());
    let trace = str_bytes(h.trace_id.as_str());
    let req = str_bytes(h.request_id.as_str());
    let ext = str_bytes(h.extension.as_str());
    let m = MAX_FRAME_SIZE as usize;
    if name.len() > m || trace.len() > m || req.len() > m || ext.len() > m {
        return Err(FrameError::Oversize);
    }
    let total: usize = 4 + name.len() + 4 + trace.len() + 4 + req.len() + 1 + 4 + ext.len();
    if total > m {
        return Err(FrameError::Oversize);
    }
    let mut out: Vec<u8> = Vec::new();
    append_field(&mut out, &name);
    append_field(&mut out, &trace);
    append_field(&mut out, &req);
    out.push(encode_body_format(&h.body_format));
    append_field(&mut out, &ext);
    proof {
        assert(out@ =~= spec_encode_request_headers(h@));
    }
    Ok(out)
}

pub fn encode_response_headers(h: &ResponseHeaders) -> (r: Result<Vec<u8>, FrameError>)
    ensures
        response_headers_encodable(h@) ==> (r matches Ok(v) && v@ == spec_encode_response_headers(
            h@,
        )),
        !response_headers_encodable(h@) ==> (r matches Err(e) && e == FrameError::Oversize),
{
    let msg = str_bytes(h.error_msg.as_str());
    let ext = str_bytes(h.extension.as_str());
    let m = MAX_FRAME_SIZE as usize;
    if msg.len() > m || ext.len() > m {
        return Err(FrameError::Oversize);
    }
    let total: usize = 2 + 1 + 4 + msg.len() + 4 + ext.len();
    if total > m {
        return Err(FrameError::Oversize);
    }
    let mut out: Vec<u8> = Vec::new();
    append_u16(&mut out, h.status_code);
    out.push(encode_body_format(&h.body_format));
    append_field(&mut out, &msg);
    append_field(&mut out, &ext);
    proof {
        assert(out@ =~= spec_encode_response_headers(h@));
    }
    Ok(out)
}

// ---------------------------------------------------------------------------
// Exec decoding.
// ---------------------------------------------------------------------------
/// Take one length-prefixed byte field.
fn take_bytes(buf: &Vec<u8>, pos: usize) -> (r: Option<(Vec<u8>, usize)>)
    requires
        pos <= buf@.len(),
    ensures
        match r {
            Some(item) => {
                &&& spec_take_bytes(buf@, pos as int) == Some((item.0@, item.1 as int))
                &&& pos < item.1 <= buf@.len()
            },
            None => spec_take_bytes(buf@, pos as int) is None,
        },
{
    if buf.len() - pos < 4 {
        return None;
    }
    let len = decode_len(buf[pos], buf[pos + 1], buf[pos + 2], buf[pos + 3]);
    proof {
        assert(seq![buf@[pos as int], buf@[pos + 1], buf@[pos + 2], buf@[pos + 3]] =~= buf@
            .subrange(pos as int, pos + 4));
    }
    if (len as usize) > buf.len() - (pos + 4) {
        return None;
    }
    let end: usize = pos + 4 + len as usize;
    let mut payload: Vec<u8> = Vec::new();
    let mut i: usize = pos + 4;
    while i < end
        invariant
            pos + 4 <= i <= end,
            end <= buf@.len(),
            payload@ == buf@.subrange(pos + 4, i as int),
        decreases end - i,
    {
        payload.push(buf[i]);
        i = i + 1;
        proof {
            assert(payload@ =~= buf@.subrange(pos + 4, i as int));
        }
    }
    Some((payload, end))
}

/// Take one string field.
fn take_str(buf: &Vec<u8>, pos: usize) -> (r: Option<(String, usize)>)
    requires
        pos <= buf@.len(),
    ensures
        match r {
            Some(item) => {
                &&& spec_take_str(buf@, pos as int) == Some((item.0@, item.1 as int))
                &&& pos < item.1 <= buf@.len()
            },
            None => spec_take_str(buf@, pos as int) is None,
        },
{
    match take_bytes(buf, pos) {
        Some((bytes, end)) => match bytes_to_string(bytes) {
            Some(s) => Some((s, end)),
            None => None,
        },
        None => None,
    }
}

/// Take a 16-bit big-endian field.
fn take_u16(buf: &Vec<u8>, pos: usize) -> (r: Option<(u16, usize)>)
    requires
        pos <= buf@.len(),
    ensures
        match r {
            Some(item) => {
                &&& spec_take_u16(buf@, pos as int) == Some((item.0, item.1 as int))
                &&& pos < item.1 <= buf@.len()
            },
            None => spec_take_u16(buf@, pos as int) is None,
        },
{
    if buf.len() - pos < 2 {
        return None;
    }
    let n: u16 = (buf[pos] as u16) * 0x100 + (buf[pos + 1] as u16);
    proof {
        assert(seq![buf@[pos as int], buf@[pos + 1]] =~= buf@.subrange(pos as int, pos + 2));
    }
    Some((n, pos + 2))
}

/// Take a body-format tag byte.
fn take_body_format(buf: &Vec<u8>, pos: usize) -> (r: Option<(BodyFormat, usize)>)
    requires
        pos <= buf@.len(),
    ensures
        match r {
            Some(item) => {
                &&& spec_take_body_format(buf@, pos as int) == Some((item.0, item.1 as int))
                &&& pos < item.1 <= buf@.len()
            },
            None => spec_take_body_format(buf@, pos as int) is None,
        },
{
    if pos >= buf.len() {
        return None;
    }
    let b = buf[pos];
    if b == 0 {
        Some((BodyFormat::Null, pos + 1))
    } else if b == 1 {
        Some((BodyFormat::Bytes, pos + 1))
    } else if b == 2 {
        Some((BodyFormat::Chunk, pos + 1))
    } else {
        None
    }
}

pub fn decode_handshake_request(buf: &Vec<u8>) -> (r: Option<HandshakeRequest>)
    ensures
        match r {
            Some(h) => spec_decode_handshake_request(buf@) == Some(h@),
            None => spec_decode_handshake_request(buf@) is None,
        },
{
    let (sfn_name, p1) = match take_str(buf, 0) {
        Some(x) => x,
        None => {
            return None;
        },
    };
    let (credential, p2) = match take_str(buf, p1) {
        Some(x) => x,
        None => {
            return None;
        },
    };
    if p2 != buf.len() {
        return None;
    }
    Some(HandshakeRequest { sfn_name, credential })
}

pub fn decode_handshake_response(buf: &Vec<u8>) -> (r: Option<HandshakeResponse>)
    ensures
        match r {
            Some(h) => spec_decode_handshake_response(buf@) == Some(h@),
            None => spec_decode_handshake_response(buf@) is None,
        },
{
    let (status_code, p1) = match take_u16(buf, 0) {
        Some(x) => x,
        None => {
            return None;
        },
    };
    let (error_msg, p2) = match take_str(buf, p1) {
        Some(x) => x,
        None => {
            return None;
        },
    };
    if p2 != buf.len() {
        return None;
    }
    Some(HandshakeResponse { status_code, error_msg })
}

pub fn decode_request_headers(buf: &Vec<u8>) -> (r: Option<RequestHeaders>)
    ensures
        match r {
            Some(h) => spec_decode_request_headers(buf@) == Some(h@),
            None => spec_decode_request_headers(buf@) is None,
        },
{
    let (sfn_name, p1) = match take_str(buf, 0) {
        Some(x) => x,
        None => {
            return None;
        },
    };
    let (trace_id, p2) = match take_str(buf, p1) {
        Some(x) => x,
        None => {
            return None;
        },
    };
    let (request_id, p3) = match take_str(buf, p2) {
        Some(x) => x,
        None => {
            return None;
        },
    };
    let (body_format, p4) = match take_body_format(buf, p3) {
        Some(x) => x,
        None => {
            return None;
        },
    };
    let (extension, p5) = match take_str(buf, p4) {
        Some(x) => x,
        None => {
            return None;
        },
    };
    if p5 != buf.len() {
        return None;
    }
    Some(RequestHeaders { sfn_name, trace_id, request_id, body_format, extension })
}

pub fn decode_response_headers(buf: &Vec<u8>) -> (r: Option<ResponseHeaders>)
    ensures
        match r {
            Some(h) => spec_decode_response_headers(buf@) == Some(h@),
            None => spec_decode_response_headers(buf@) is None,
        },
{
    let (status_code, p1) = match take_u16(buf, 0) {
        Some(x) => x,
        None => {
            return None;
        },
    };
    let (body_format, p2) = match take_body_format(buf, p1) {
        Some(x) => x,
        None => {
            return None;
        },
    };
    let (error_msg, p3) = match take_str(buf, p2) {
        Some(x) => x,
        None => {
            return None;
        },
    };
    let (extension, p4) = match take_str(buf, p3) {
        Some(x) => x,
        None => {
            return None;
        },
    };
    if p4 != buf.len() {
        return None;
    }
    Some(ResponseHeaders { status_code, error_msg, body_format, extension })
}

// ---------------------------------------------------------------------------
// Round-trip laws.
// ---------------------------------------------------------------------------
/// A string field placed after `pre` is taken back intact, whatever follows.
proof fn lemma_take_str_of_encoding(pre: Seq<u8>, s: Seq<char>, rest: Seq<u8>)
    requires
        encode_utf8(s).len() <= u32::MAX,
    ensures
        spec_take_str(pre + spec_encode_str(s) + rest, pre.len() as int) == Some(
            (s, pre.len() + 4 + encode_utf8(s).len() as int),
        ),
{
    let b = pre + spec_encode_str(s) + rest;
    let pos = pre.len() as int;
    let n = encode_utf8(s).len() as int;
    assert(b.subrange(pos, pos + 4) =~= be32_bytes(encode_utf8(s).len() as u32));
    lemma_be32_round_trip(encode_utf8(s).len() as u32);
    assert(b.subrange(pos + 4, pos + 4 + n) =~= encode_utf8(s));
    broadcast use encode_utf8_valid_utf8;

    encode_utf8_decode_utf8(s);
}

/// A 16-bit field placed after `pre` is taken back intact.
proof fn lemma_take_u16_of_encoding(pre: Seq<u8>, n: u16, rest: Seq<u8>)
    ensures
        spec_take_u16(pre + be16_bytes(n) + rest, pre.len() as int) == Some(
            (n, pre.len() + 2 as int),
        ),
{
    let b = pre + be16_bytes(n) + rest;
    let pos = pre.len() as int;
    assert(b.subrange(pos, pos + 2) =~= be16_bytes(n));
    assert((n / 0x100) as u8 == n / 0x100) by (bit_vector);
    assert((n % 0x100) as u8 == n % 0x100) by (bit_vector);
    assert((n / 0x100) * 0x100 + (n % 0x100) == n) by (bit_vector);
    assert(be16(be16_bytes(n)) == n);
}

/// A body-format tag placed after `pre` is taken back intact.
proof fn lemma_take_body_format_of_encoding(pre: Seq<u8>, f: BodyFormat, rest: Seq<u8>)
    ensures
        spec_take_body_format(pre + seq![body_format_byte(f)] + rest, pre.len() as int) == Some(
            (f, pre.len() + 1 as int),
        ),
{
    let b = pre + seq![body_format_byte(f)] + rest;
    let pos = pre.len() as int;
    assert(b[pos] == body_format_byte(f));
}

/// Framing idempotence: a handshake request decodes to the value it encodes.
pub proof fn lemma_handshake_request_round_trip(v: HandshakeRequestV)
    requires
        handshake_request_encodable(v),
    ensures
        spec_decode_handshake_request(spec_encode_handshake_request(v)) == Some(v),
{
    let b = spec_encode_handshake_request(v);
    let f1 = spec_encode_str(v.sfn_name);
    let f2 = spec_encode_str(v.credential);
    assert(b =~= Seq::<u8>::empty() + f1 + (f2));
    lemma_take_str_of_encoding(Seq::<u8>::empty(), v.sfn_name, f2);
    assert(b =~= f1 + f2 + Seq::<u8>::empty());
    lemma_take_str_of_encoding(f1, v.credential, Seq::<u8>::empty());
}

/// Framing idempotence: a handshake response decodes to the value it encodes.
pub proof fn lemma_handshake_response_round_trip(v: HandshakeResponseV)
    requires
        handshake_response_encodable(v),
    ensures
        spec_decode_handshake_response(spec_encode_handshake_response(v)) == Some(v),
{
    let b = spec_encode_handshake_response(v);
    let f1 = be16_bytes(v.status_code);
    let f2 = spec_encode_str(v.error_msg);
    assert(b =~= Seq::<u8>::empty() + f1 + f2);
    lemma_take_u16_of_encoding(Seq::<u8>::empty(), v.status_code, f2);
    assert(b =~= f1 + f2 + Seq::<u8>::empty());
    lemma_take_str_of_encoding(f1, v.error_msg, Seq::<u8>::empty());
}

/// Framing idempotence: request headers decode to the value they encode.
#[verifier::rlimit(100)]
#[verifier::spinoff_prover]
pub proof fn lemma_request_headers_round_trip(v: RequestHeadersV)
    requires
        request_headers_encodable(v),
    ensures
        spec_decode_request_headers(spec_encode_request_headers(v)) == Some(v),
{
    let b = spec_encode_request_headers(v);
    let f1 = spec_encode_str(v.sfn_name);
    let f2 = spec_encode_str(v.trace_id);
    let f3 = spec_encode_str(v.request_id);
    let f4 = seq![body_format_byte(v.body_format)];
    let f5 = spec_encode_str(v.extension);
    let p1 = f1.len() as int;
    let p2 = p1 + f2.len();
    let p3 = p2 + f3.len();
    let p4 = p3 + 1;
    let p5 = p4 + f5.len();
    assert(spec_take_str(b, 0) == Some((v.sfn_name, p1))) by {
        assert(b =~= Seq::<u8>::empty() + f1 + (f2 + f3 + f4 + f5));
        lemma_take_str_of_encoding(Seq::<u8>::empty(), v.sfn_name, f2 + f3 + f4 + f5);
    }
    assert(spec_take_str(b, p1) == Some((v.trace_id, p2))) by {
        assert(b =~= f1 + f2 + (f3 + f4 + f5));
        lemma_take_str_of_encoding(f1, v.trace_id, f3 + f4 + f5);
    }
    assert(spec_take_str(b, p2) == Some((v.request_id, p3))) by {
        assert(b =~= (f1 + f2) + f3 + (f4 + f5));
        lemma_take_str_of_encoding(f1 + f2, v.request_id, f4 + f5);
    }
    assert(spec_take_body_format(b, p3) == Some((v.body_format, p4))) by {
        assert(b =~= (f1 + f2 + f3) + f4 + f5);
        lemma_take_body_format_of_encoding(f1 + f2 + f3, v.body_format, f5);
    }
    assert(spec_take_str(b, p4) == Some((v.extension, p5))) by {
        assert(b =~= (f1 + f2 + f3 + f4) + f5 + Seq::<u8>::empty());
        lemma_take_str_of_encoding(f1 + f2 + f3 + f4, v.extension, Seq::<u8>::empty());
    }
    assert(p5 == b.len());
}

/// Framing idempotence: response headers decode to the value they encode.
#[verifier::rlimit(60)]
#[verifier::spinoff_prover]
pub proof fn lemma_response_headers_round_trip(v: ResponseHeadersV)
    requires
        response_headers_encodable(v),
    ensures
        spec_decode_response_headers(spec_encode_response_headers(v)) == Some(v),
{
    let b = spec_encode_response_headers(v);
    let f1 = be16_bytes(v.status_code);
    let f2 = seq![body_format_byte(v.body_format)];
    let f3 = spec_encode_str(v.error_msg);
    let f4 = spec_encode_str(v.extension);
    assert(b =~= Seq::<u8>::empty() + f1 + (f2 + f3 + f4));
    lemma_take_u16_of_encoding(Seq::<u8>::empty(), v.status_code, f2 + f3 + f4);
    assert(b =~= f1 + f2 + (f3 + f4));
    lemma_take_body_format_of_encoding(f1, v.body_format, f3 + f4);
    assert(b =~= (f1 + f2) + f3 + f4);
    lemma_take_str_of_encoding(f1 + f2, v.error_msg, f4);
    assert(b =~= (f1 + f2 + f3) + f4 + Seq::<u8>::empty());
    lemma_take_str_of_encoding(f1 + f2 + f3, v.extension, Seq::<u8>::empty());
}

} // verus!
