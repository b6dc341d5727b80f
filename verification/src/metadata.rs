//! Per-request metadata: a trace id and a request id, taken from the caller's
//! headers when present and freshly generated otherwise.

use vstd::prelude::*;

verus! {

/// Characters in a generated trace id.
pub const TRACE_ID_LEN: usize = 12;

/// Characters in a generated request id.
pub const REQUEST_ID_LEN: usize = 8;

/// Relies on `nanoid::format` with the URL-safe alphabet: it returns an id of
/// exactly `len` characters drawn from that alphabet.
#[verifier::external_body]
pub(crate) fn generate_id(len: usize) -> (r: String)
    requires
        1 <= len,
    ensures
        r@.len() == len,
{
    nanoid::format(nanoid::rngs::default, &nanoid::alphabet::SAFE, len)
}

/// Something that carries a trace id and a request id.
pub trait Metadata {
    /// The trace id as a mathematical value.
    spec fn spec_trace_id(&self) -> Seq<char>;

    /// The request id as a mathematical value.
    spec fn spec_req_id(&self) -> Seq<char>;

    /// The trace id.
    fn trace_id(&self) -> (r: &str)
        ensures
            r@ == self.spec_trace_id(),
    ;

    /// The request id.
    fn req_id(&self) -> (r: &str)
        ensures
            r@ == self.spec_req_id(),
    ;
}

/// The stock metadata: caller-supplied ids where given, generated ones where
/// not.
#[derive(Clone, Debug)]
pub struct RequestMetadata {
    pub trace_id: String,
    pub req_id: String,
}

impl RequestMetadata {
    /// Build metadata from the optional header values: a missing trace id is
    /// generated with `TRACE_ID_LEN` characters, a missing request id with
    /// `REQUEST_ID_LEN`.
    pub fn new(trace_id: Option<String>, req_id: Option<String>) -> (r: RequestMetadata)
        ensures
            match trace_id {
                Some(t) => r.trace_id@ == t@,
                None => r.trace_id@.len() == TRACE_ID_LEN,
            },
            match req_id {
                Some(t) => r.req_id@ == t@,
                None => r.req_id@.len() == REQUEST_ID_LEN,
            },
    {
        let trace_id = match trace_id {
            Some(t) => t,
            None => generate_id(TRACE_ID_LEN),
        };
        let req_id = match req_id {
            Some(t) => t,
            None => generate_id(REQUEST_ID_LEN),
        };
        RequestMetadata { trace_id, req_id }
    }
}

impl Metadata for RequestMetadata {
    open spec fn spec_trace_id(&self) -> Seq<char> {
        self.trace_id@
    }

    open spec fn spec_req_id(&self) -> Seq<char> {
        self.req_id@
    }

    fn trace_id(&self) -> (r: &str) {
        self.trace_id.as_str()
    }

    fn req_id(&self) -> (r: &str) {
        self.req_id.as_str()
    }
}

} // verus!
