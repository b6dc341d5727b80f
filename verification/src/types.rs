//! The header protocol's value types: handshake request and response, request
//! headers and response headers, and the body-format tag that tells a peer
//! what follows the headers frame on a stream.

use vstd::prelude::*;

verus! {

/// Handshake request from SFN to zipper: bind a name under a credential.
#[derive(Clone, Debug)]
pub struct HandshakeRequest {
    pub sfn_name: String,
    pub credential: String,
}

/// Handshake response from zipper to SFN. `status_code == 200` is success.
#[derive(Clone, Debug)]
pub struct HandshakeResponse {
    pub status_code: u16,
    pub error_msg: String,
}

/// What follows a headers frame: nothing, one byte blob, or a chunk sequence
/// ended by a zero-length frame.
#[derive(Clone, Copy, Debug, PartialEq, Eq, Structural)]
pub enum BodyFormat {
    Null,
    Bytes,
    Chunk,
}

/// Request headers: produced once per external request, routed by `sfn_name`,
/// and carried unchanged down the whole forwarding path.
#[derive(Clone, Debug)]
pub struct RequestHeaders {
    pub sfn_name: String,
    pub trace_id: String,
    pub request_id: String,
    pub body_format: BodyFormat,
    pub extension: String,
}

/// Response headers: the SFN's first frame on the response stream.
#[derive(Clone, Debug)]
pub struct ResponseHeaders {
    pub status_code: u16,
    pub error_msg: String,
    pub body_format: BodyFormat,
    pub extension: String,
}

/// Mathematical value of a `HandshakeRequest`.
pub struct HandshakeRequestV {
    pub sfn_name: Seq<char>,
    pub credential: Seq<char>,
}

/// Mathematical value of a `HandshakeResponse`.
pub struct HandshakeResponseV {
    pub status_code: u16,
    pub error_msg: Seq<char>,
}

/// Mathematical value of a `RequestHeaders`.
pub struct RequestHeadersV {
    pub sfn_name: Seq<char>,
    pub trace_id: Seq<char>,
    pub request_id: Seq<char>,
    pub body_format: BodyFormat,
    pub extension: Seq<char>,
}

/// Mathematical value of a `ResponseHeaders`.
pub struct ResponseHeadersV {
    pub status_code: u16,
    pub error_msg: Seq<char>,
    pub body_format: BodyFormat,
    pub extension: Seq<char>,
}

impl View for HandshakeRequest {
    type V = HandshakeRequestV;

    open spec fn view(&self) -> HandshakeRequestV {
        HandshakeRequestV { sfn_name: self.sfn_name@, credential: self.credential@ }
    }
}

impl View for HandshakeResponse {
    type V = HandshakeResponseV;

    open spec fn view(&self) -> HandshakeResponseV {
        HandshakeResponseV { status_code: self.status_code, error_msg: self.error_msg@ }
    }
}

impl View for RequestHeaders {
    type V = RequestHeadersV;

    open spec fn view(&self) -> RequestHeadersV {
        RequestHeadersV {
            sfn_name: self.sfn_name@,
            trace_id: self.trace_id@,
            request_id: self.request_id@,
            body_format: self.body_format,
            extension: self.extension@,
        }
    }
}

impl View for ResponseHeaders {
    type V = ResponseHeadersV;

    open spec fn view(&self) -> ResponseHeadersV {
        ResponseHeadersV {
            status_code: self.status_code,
            error_msg: self.error_msg@,
            body_format: self.body_format,
            extension: self.extension@,
        }
    }
}

} // verus!
