//! The bridge: forward one inbound stream to the downstream its request
//! headers name. The runtime accepts streams and pipes bytes; every decision
//! — where to forward, and which response-headers frame closes a failed
//! request — is made and verified here.

use vstd::prelude::*;
use vstd::string::StringExecFns;

use crate::connector::Connector;
use crate::router::Router;
use crate::types::{BodyFormat, RequestHeaders, ResponseHeaders};
use crate::zipper::Zipper;

verus! {

/// What to do with one accepted inbound stream.
#[derive(Clone, Debug)]
pub enum ForwardDecision {
    /// Open this downstream, send the request-headers frame on it, then pipe
    /// both directions until EOF.
    Open(Connector),
    /// Send this response-headers frame upstream and shut the writer down.
    Reject(ResponseHeaders),
}

/// The response-headers frame that closes a failed request: the given status,
/// the message, no body.
pub fn error_response_headers(status_code: u16, error_msg: String) -> (r: ResponseHeaders)
    ensures
        r.status_code == status_code,
        r.error_msg@ == error_msg@,
        r.body_format == BodyFormat::Null,
        r.extension@.len() == 0,
{
    ResponseHeaders {
        status_code,
        error_msg,
        body_format: BodyFormat::Null,
        extension: String::new(),
    }
}

/// The message of a 404 rejection: `downstream '<name>' not found`.
pub fn not_found_message(sfn_name: &String) -> (r: String)
    ensures
        r@ == "downstream '"@ + sfn_name@ + "' not found"@,
{
    let mut msg = String::from_str("downstream '");
    msg.append(sfn_name.as_str());
    msg.append("' not found");
    msg
}

/// The response-headers frame sent when the inbound headers frame itself
/// could not be read: status 400.
pub fn bad_request_headers() -> (r: ResponseHeaders)
    ensures
        r.status_code == 400,
        r.error_msg@ == "failed to receive request headers"@,
        r.body_format == BodyFormat::Null,
{
    error_response_headers(400, String::from_str("failed to receive request headers"))
}

/// The response-headers frame sent when opening or writing the downstream
/// failed after routing succeeded: status 500.
pub fn downstream_error_headers(error_msg: String) -> (r: ResponseHeaders)
    ensures
        r.status_code == 500,
        r.error_msg@ == error_msg@,
        r.body_format == BodyFormat::Null,
{
    error_response_headers(500, error_msg)
}

/// Decide one forward on the zipper: route the headers; a live owner yields a
/// QUIC downstream on its connection, an unknown name a 404 rejection.
pub fn forward_decision<R: Router>(zipper: &Zipper<R>, headers: &RequestHeaders) -> (r:
    ForwardDecision)
    requires
        zipper.wf(),
    ensures
        zipper.routes().contains_key(headers.sfn_name@) ==> (r matches ForwardDecision::Open(c)
            && c matches Connector::Quic { conn_id } && conn_id == zipper.routes()[
            headers.sfn_name@
        ] && zipper.is_live(conn_id)),
        !zipper.routes().contains_key(headers.sfn_name@) ==> (r
            matches ForwardDecision::Reject(h) && h.status_code == 404 && h.error_msg@
            == "downstream '"@ + headers.sfn_name@ + "' not found"@ && h.body_format
            == BodyFormat::Null),
{
    match zipper.route_request(headers) {
        Some(conn_id) => ForwardDecision::Open(Connector::Quic { conn_id }),
        None => ForwardDecision::Reject(
            error_response_headers(404, not_found_message(&headers.sfn_name)),
        ),
    }
}

} // verus!
