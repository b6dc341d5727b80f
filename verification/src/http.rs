//! HTTP ingress logic: turning an external request into request headers,
//! classifying the response headers that come back, and splitting a chunked
//! response body into the events of an SSE stream.
//!
//! The HTTP server itself lives outside the library; it hands header values
//! in as plain optional strings and carries the decisions out.

use vstd::prelude::*;
use vstd::string::StringExecFns;

use crate::frame::{be32, be32_bytes, decode_frame, encode_len, spec_frame};
use crate::frame::{FrameError, MAX_FRAME_SIZE};
use crate::metadata::{generate_id, REQUEST_ID_LEN, TRACE_ID_LEN};
use crate::types::{BodyFormat, RequestHeaders, ResponseHeaders};

verus! {

/// Build the request headers of one external request. Missing trace and
/// request ids are generated; a missing extension is the empty string.
pub fn new_request_headers(
    sfn_name: String,
    traceparent: Option<String>,
    request_id: Option<String>,
    extension: Option<String>,
    body_format: BodyFormat,
) -> (r: RequestHeaders)
    ensures
        r.sfn_name@ == sfn_name@,
        r.body_format == body_format,
        match traceparent {
            Some(t) => r.trace_id@ == t@,
            None => r.trace_id@.len() == TRACE_ID_LEN,
        },
        match request_id {
            Some(t) => r.request_id@ == t@,
            None => r.request_id@.len() == REQUEST_ID_LEN,
        },
        match extension {
            Some(t) => r.extension@ == t@,
            None => r.extension@.len() == 0,
        },
{
    let trace_id = match traceparent {
        Some(t) => t,
        None => generate_id(TRACE_ID_LEN),
    };
    let request_id = match request_id {
        Some(t) => t,
        None => generate_id(REQUEST_ID_LEN),
    };
    let extension = match extension {
        Some(t) => t,
        None => String::new(),
    };
    RequestHeaders { sfn_name, trace_id, request_id, body_format, extension }
}

/// What the HTTP handler must do with a response-headers frame.
#[derive(Clone, Debug)]
pub enum ResponsePlan {
    /// A non-200 status: answer the HTTP caller with it and the error message.
    Error { status_code: u16, error_msg: String },
    /// Success with no body: answer with an empty body.
    Empty,
    /// Success with one byte blob to relay verbatim.
    ReadBytes,
    /// Success with a chunked body: stream one SSE event per chunk.
    StreamChunks,
}

/// Decide how to answer from the response headers: any non-200 status is
/// surfaced as-is, a 200 is served according to its body format.
pub fn classify_response(h: &ResponseHeaders) -> (r: ResponsePlan)
    ensures
        h.status_code != 200 ==> (r matches ResponsePlan::Error { status_code, error_msg } && status_code == h.status_code && error_msg@ == h.error_msg@),
        h.status_code == 200 ==> r == match h.body_format {
            BodyFormat::Null => ResponsePlan::Empty,
            BodyFormat::Bytes => ResponsePlan::ReadBytes,
            BodyFormat::Chunk => ResponsePlan::StreamChunks,
        },
{
    if h.status_code != 200 {
        return ResponsePlan::Error {
            status_code: h.status_code,
            error_msg: h.error_msg.clone(),
        };
    }
    match h.body_format {
        BodyFormat::Null => ResponsePlan::Empty,
        BodyFormat::Bytes => ResponsePlan::ReadBytes,
        BodyFormat::Chunk => ResponsePlan::StreamChunks,
    }
}

/// The HTTP answer when no SFN owns the requested name.
pub fn not_found_response() -> (r: (u16, String))
    ensures
        r.0 == 404,
        r.1@ == "sfn not found"@,
{
    (404, String::from_str("sfn not found"))
}

/// The chunks of a chunked body read from `pos` on: frames up to the
/// zero-length terminator. `None` when a frame is oversize or truncated or
/// the terminator never comes.
pub open spec fn spec_chunk_frames(b: Seq<u8>, pos: int) -> Option<Seq<Seq<u8>>>
    decreases b.len() - pos,
{
    if 0 <= pos && pos + 4 <= b.len() {
        let n = be32(b.subrange(pos, pos + 4)) as int;
        if n == 0 {
            Some(Seq::empty())
        } else if n <= MAX_FRAME_SIZE && pos + 4 + n <= b.len() {
            match spec_chunk_frames(b, pos + 4 + n) {
                Some(rest) => Some(seq![b.subrange(pos + 4, pos + 4 + n)] + rest),
                None => None,
            }
        } else {
            None
        }
    } else {
        None
    }
}

/// The byte views of a list of chunks.
pub open spec fn chunk_views(chunks: Seq<Vec<u8>>) -> Seq<Seq<u8>> {
    chunks.map_values(|c: Vec<u8>| c@)
}

/// Split a chunked body into its chunks; `None` is a protocol error or a
/// missing terminator.
pub fn split_chunks(body: &Vec<u8>) -> (r: Option<Vec<Vec<u8>>>)
    ensures
        match r {
            Some(chunks) => spec_chunk_frames(body@, 0) == Some(chunk_views(chunks@)),
            None => spec_chunk_frames(body@, 0) is None,
        },
{
    let mut chunks: Vec<Vec<u8>> = Vec::new();
    let mut pos: usize = 0;
    proof {
        assert(chunk_views(chunks@) =~= Seq::<Seq<u8>>::empty());
    }
    loop
        invariant
            pos <= body@.len(),
            match spec_chunk_frames(body@, pos as int) {
                Some(rest) => spec_chunk_frames(body@, 0) == Some(chunk_views(chunks@) + rest),
                None => spec_chunk_frames(body@, 0) is None,
            },
        decreases body@.len() - pos,
    {
        match decode_frame(body, pos) {
            Ok(Some((payload, end))) => {
                if payload.len() == 0 {
                    proof {
                        assert(chunk_views(chunks@) + Seq::<Seq<u8>>::empty() =~= chunk_views(
                            chunks@,
                        ));
                    }
                    return Some(chunks);
                }
                let ghost pre_chunks = chunks@;
                chunks.push(payload);
                pos = end;
                proof {
                    assert(chunk_views(chunks@) =~= chunk_views(pre_chunks).push(
                        chunks@.last()@,
                    ));
                    if spec_chunk_frames(body@, pos as int) is Some {
                        let rest = spec_chunk_frames(body@, pos as int).unwrap();
                        assert(chunk_views(pre_chunks) + (seq![chunks@.last()@] + rest)
                            =~= chunk_views(chunks@) + rest);
                    }
                }
            },
            Ok(None) => {
                return None;
            },
            Err(_) => {
                return None;
            },
        }
    }
}

/// One frame of a chunked body, or the terminator for an empty chunk list.
pub open spec fn spec_chunk_body(chunks: Seq<Seq<u8>>) -> Seq<u8>
    decreases chunks.len(),
{
    if chunks.len() == 0 {
        be32_bytes(0)
    } else {
        spec_frame(chunks.first()) + spec_chunk_body(chunks.drop_first())
    }
}

/// Whether a chunk list can go on the wire: every chunk non-empty (an empty
/// one would read as the terminator) and within the frame cap.
pub open spec fn chunks_encodable(chunks: Seq<Seq<u8>>) -> bool {
    forall|i: int| 0 <= i < chunks.len() ==> 0 < (#[trigger] chunks[i]).len() <= MAX_FRAME_SIZE
}

/// Frame a whole chunked body: each chunk length-prefixed, then the
/// zero-length terminator.
pub fn encode_chunks(chunks: &Vec<Vec<u8>>) -> (r: Result<Vec<u8>, FrameError>)
    requires
        chunks_encodable(chunk_views(chunks@)),
    ensures
        r matches Ok(v) && v@ == spec_chunk_body(chunk_views(chunks@)),
{
    let mut out: Vec<u8> = Vec::new();
    let n = chunks.len();
    let mut i: usize = 0;
    let ghost views = chunk_views(chunks@);
    proof {
        assert(views.subrange(0, n as int) =~= views);
        assert(out@ + spec_chunk_body(views) =~= spec_chunk_body(views));
    }
    while i < n
        invariant
            n == chunks@.len(),
            i <= n,
            views == chunk_views(chunks@),
            chunks_encodable(views),
            spec_chunk_body(views) == out@ + spec_chunk_body(views.subrange(i as int, n as int)),
        decreases n - i,
    {
        let ghost pre = out@;
        let frame = match crate::frame::encode_frame(&chunks[i]) {
            Ok(f) => f,
            Err(e) => {
                proof {
                    assert(0 < views[i as int].len() <= MAX_FRAME_SIZE);
                }
                return Err(e);
            },
        };
        append_chunk(&mut out, &frame);
        i = i + 1;
        proof {
            let tail = views.subrange(i - 1, n as int);
            assert(tail.first() == views[i - 1]);
            assert(tail.drop_first() =~= views.subrange(i as int, n as int));
            assert(out@ =~= pre + spec_frame(views[i - 1]));
            assert(pre + (spec_frame(tail.first()) + spec_chunk_body(tail.drop_first())) =~= out@
                + spec_chunk_body(views.subrange(i as int, n as int)));
        }
    }
    let terminator = encode_len(0);
    append_chunk(&mut out, &terminator);
    proof {
        assert(views.subrange(n as int, n as int) =~= Seq::<Seq<u8>>::empty());
        assert(out@ =~= spec_chunk_body(views));
    }
    Ok(out)
}

/// Append all of `b` to `out`.
fn append_chunk(out: &mut Vec<u8>, b: &Vec<u8>)
    ensures
        final(out)@ == old(out)@ + b@,
{
    let mut i: usize = 0;
    while i < b.len()
        invariant
            i <= b@.len(),
            out@ == old(out)@ + b@.subrange(0, i as int),
        decreases b@.len() - i,
    {
        out.push(b[i]);
        i = i + 1;
        proof {
            assert(out@ =~= old(out)@ + b@.subrange(0, i as int));
        }
    }
    proof {
        assert(old(out)@ + b@.subrange(0, b@.len() as int) =~= old(out)@ + b@);
    }
}

/// Chunk terminator law: a body framed from non-empty chunks splits back
/// into exactly those chunks -- one SSE event per chunk, ending at the
/// terminator.
pub proof fn lemma_chunks_round_trip(chunks: Seq<Seq<u8>>)
    requires
        chunks_encodable(chunks),
    ensures
        spec_chunk_frames(spec_chunk_body(chunks), 0) == Some(chunks),
{
    lemma_chunks_decode(chunks, Seq::<u8>::empty());
    assert(Seq::<u8>::empty() + spec_chunk_body(chunks) =~= spec_chunk_body(chunks));
}

/// A framed chunk body placed after any prefix reads back as its chunks.
#[verifier::rlimit(100)]
#[verifier::spinoff_prover]
proof fn lemma_chunks_decode(chunks: Seq<Seq<u8>>, pre: Seq<u8>)
    requires
        chunks_encodable(chunks),
    ensures
        spec_chunk_frames(pre + spec_chunk_body(chunks), pre.len() as int) == Some(chunks),
    decreases chunks.len(),
{
    let body = spec_chunk_body(chunks);
    let b = pre + body;
    let pos = pre.len() as int;
    if chunks.len() == 0 {
        assert(b.subrange(pos, pos + 4) =~= be32_bytes(0));
        crate::frame::lemma_be32_round_trip(0);
    } else {
        let c = chunks.first();
        let rest = chunks.drop_first();
        let n = c.len() as int;
        assert(0 < c.len() <= MAX_FRAME_SIZE);
        assert(chunks_encodable(rest)) by {
            assert(forall|i: int| 0 <= i < rest.len() ==> #[trigger] rest[i] == chunks[i + 1]);
        }
        assert(b =~= (pre + spec_frame(c)) + spec_chunk_body(rest));
        lemma_chunks_decode(rest, pre + spec_frame(c));
        assert(spec_chunk_frames(b, pos + 4 + n) == Some(rest));
        assert(b.subrange(pos, pos + 4) =~= be32_bytes(c.len() as u32));
        crate::frame::lemma_be32_round_trip(c.len() as u32);
        assert(b.subrange(pos + 4, pos + 4 + n) =~= c);
        assert(seq![c] + rest =~= chunks);
    }
}

} // verus!
