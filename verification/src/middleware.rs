//! The zipper's middleware: per-request metadata and the admission policy,
//! wrapped around the stock router.

use vstd::prelude::*;

use crate::metadata::RequestMetadata;
use crate::router::{AdmissionError, RouterImpl};
use crate::router::Router;
use crate::types::HandshakeRequest;

verus! {

/// Middleware configuration: the bearer token handshakes are checked against,
/// if one is set.
#[derive(Clone, Debug)]
pub struct MiddlewareConfig {
    pub auth_token: Option<String>,
}

/// The stock middleware: a router under the configured admission policy.
pub struct DefaultMiddleware {
    router: RouterImpl,
}

impl DefaultMiddleware {
    /// The routing table.
    pub closed spec fn routes(&self) -> Map<Seq<char>, u64> {
        self.router.routes()
    }

    /// The configured token, if any.
    pub closed spec fn auth_token_view(&self) -> Option<Seq<char>> {
        self.router.auth_token_view()
    }

    /// Internal consistency of the representation.
    pub closed spec fn wf(&self) -> bool {
        self.router.wf()
    }

    /// Whether a handshake binding `name` under `credential` is admitted:
    /// the name must be non-empty, and the credential must equal the token
    /// where one is configured (a missing credential counts as empty).
    pub open spec fn spec_admits(&self, name: Seq<char>, credential: Option<Seq<char>>) -> bool {
        name.len() > 0 && match self.auth_token_view() {
            Some(t) => credential == Some(t),
            None => true,
        }
    }

    /// Make a middleware with no routes.
    pub fn new(config: MiddlewareConfig) -> (r: DefaultMiddleware)
        ensures
            r.wf(),
            r.routes() == Map::<Seq<char>, u64>::empty(),
            r.auth_token_view() == match config.auth_token {
                Some(t) => Some(t@),
                None => Option::<Seq<char>>::None,
            },
    {
        DefaultMiddleware { router: RouterImpl::new(config.auth_token) }
    }

    /// Build per-request metadata from the optional header values.
    pub fn new_request_metadata(&self, trace_id: Option<String>, req_id: Option<String>) -> (r:
        RequestMetadata)
        ensures
            match trace_id {
                Some(t) => r.trace_id@ == t@,
                None => r.trace_id@.len() == crate::metadata::TRACE_ID_LEN,
            },
            match req_id {
                Some(t) => r.req_id@ == t@,
                None => r.req_id@.len() == crate::metadata::REQUEST_ID_LEN,
            },
    {
        RequestMetadata::new(trace_id, req_id)
    }

    /// Admit or refuse a handshake; on admission bind the name and hand back
    /// the displaced connection id, if any. A missing credential is checked
    /// as the empty one.
    pub fn handshake(&mut self, conn_id: u64, sfn_name: String, credential: Option<String>) -> (r:
        Result<Option<u64>, AdmissionError>)
        requires
            old(self).wf(),
        ensures
            final(self).wf(),
            final(self).auth_token_view() == old(self).auth_token_view(),
            ({
                let cred = match credential {
                    Some(c) => c@,
                    None => Seq::<char>::empty(),
                };
                match r {
                    Ok(prev) => {
                        &&& old(self).spec_admits(sfn_name@, Some(cred))
                        &&& final(self).routes() == old(self).routes().insert(sfn_name@, conn_id)
                        &&& prev == if old(self).routes().contains_key(sfn_name@) {
                            Some(old(self).routes()[sfn_name@])
                        } else {
                            Option::<u64>::None
                        }
                    },
                    Err(e) => {
                        &&& !old(self).spec_admits(sfn_name@, Some(cred))
                        &&& final(self).routes() == old(self).routes()
                        &&& e == (if sfn_name@.len() == 0 {
                            AdmissionError::EmptyName
                        } else {
                            AdmissionError::InvalidCredential
                        })
                    },
                }
            }),
    {
        let credential = match credential {
            Some(c) => c,
            None => String::new(),
        };
        let req = HandshakeRequest { sfn_name, credential };
        self.router.register(conn_id, &req)
    }

    /// Route a name to the owning connection; the metadata only travels along.
    pub fn route(&self, name: &String, metadata: &RequestMetadata) -> (r: Option<u64>)
        requires
            self.wf(),
        ensures
            r == if self.routes().contains_key(name@) {
                Some(self.routes()[name@])
            } else {
                Option::<u64>::None
            },
    {
        let _ = metadata;
        self.router.lookup(name)
    }

    /// Remove every routing entry pointing at a disconnected connection.
    pub fn remove_sfn(&mut self, conn_id: u64)
        requires
            old(self).wf(),
        ensures
            final(self).wf(),
            forall|k: Seq<char>|
                #![trigger final(self).routes().contains_key(k)]
                #![trigger old(self).routes().contains_key(k)]
                final(self).routes().contains_key(k) <==> (old(self).routes().contains_key(k)
                    && old(self).routes()[k] != conn_id),
            forall|k: Seq<char>|
                #![trigger final(self).routes().contains_key(k)]
                final(self).routes().contains_key(k) ==> final(self).routes()[k] == old(
                    self,
                ).routes()[k],
    {
        self.router.purge(conn_id);
    }
}

/// Middleware for the HTTP bridge: it only mints metadata.
#[derive(Clone, Copy, Debug)]
pub struct HttpMiddlewareImpl;

impl HttpMiddlewareImpl {
    /// Build per-request metadata from the optional header values.
    pub fn new_metadata(&self, trace_id: Option<String>, req_id: Option<String>) -> (r:
        RequestMetadata)
        ensures
            match trace_id {
                Some(t) => r.trace_id@ == t@,
                None => r.trace_id@.len() == crate::metadata::TRACE_ID_LEN,
            },
            match req_id {
                Some(t) => r.req_id@ == t@,
                None => r.req_id@.len() == crate::metadata::REQUEST_ID_LEN,
            },
    {
        RequestMetadata::new(trace_id, req_id)
    }
}

} // verus!
