//! The zipper's connection lifecycle: which connections are live, which name
//! each one has bound, and what must happen on every event.
//!
//! The runtime around the library accepts QUIC connections, reads handshake
//! frames and performs the actions this state machine hands back: send a
//! handshake response, force-close a displaced connection with the
//! displacement error code, drop a connection's handle. Every decision is
//! taken here and verified; the runtime only carries it out.

use vstd::prelude::*;

use crate::router::{AdmissionError, Router};
use crate::types::{HandshakeRequest, HandshakeResponse, RequestHeaders};

verus! {

/// Application error code used when a displaced connection is force-closed.
pub const DISPLACEMENT_ERROR_CODE: u32 = 1;

/// An order to force-close a connection.
#[derive(Clone, Copy, Debug, PartialEq, Eq, Structural)]
pub struct Eviction {
    pub conn_id: u64,
    pub error_code: u32,
}

/// What a handshake event demands of the runtime.
#[derive(Clone, Debug)]
pub struct HandshakeOutcome {
    /// The response to send on the handshake stream.
    pub response: HandshakeResponse,
    /// Whether the connection was admitted; a refused connection is dropped.
    pub accepted: bool,
    /// The displaced connection to force-close, if the name was already bound.
    pub evict: Option<Eviction>,
}

/// No two names are bound to the same connection.
pub open spec fn routes_injective(m: Map<Seq<char>, u64>) -> bool {
    forall|k1: Seq<char>, k2: Seq<char>|
        #![trigger m[k1], m[k2]]
        m.contains_key(k1) && m.contains_key(k2) && k1 != k2 ==> m[k1] != m[k2]
}

/// The zipper's verified state: the router's table and the set of live
/// connections, kept consistent with each other.
pub struct Zipper<R: Router> {
    router: R,
    conns: Vec<u64>,
}

impl<R: Router> Zipper<R> {
    /// The routing table.
    pub closed spec fn routes(&self) -> Map<Seq<char>, u64> {
        self.router.routes()
    }

    /// Whether a connection id is live.
    pub closed spec fn is_live(&self, conn_id: u64) -> bool {
        self.conns@.contains(conn_id)
    }

    /// Whether a handshake would be admitted.
    pub closed spec fn admits(&self, req: crate::types::HandshakeRequestV) -> bool {
        self.router.admits(req)
    }

    /// The refusal an inadmissible handshake gets.
    pub closed spec fn refusal(&self, req: crate::types::HandshakeRequestV) -> AdmissionError {
        self.router.refusal(req)
    }

    /// Consistency: every routed name points at a live connection, and no
    /// connection holds two names.
    pub closed spec fn wf(&self) -> bool {
        &&& self.router.wf()
        &&& forall|k: Seq<char>|
            #![trigger self.routes().contains_key(k)]
            self.routes().contains_key(k) ==> self.is_live(self.routes()[k])
        &&& routes_injective(self.routes())
    }

    /// A connection id that has bound no name yet.
    pub closed spec fn is_unbound(&self, conn_id: u64) -> bool {
        forall|k: Seq<char>|
            #![trigger self.routes().contains_key(k)]
            self.routes().contains_key(k) ==> self.routes()[k] != conn_id
    }

    /// Wrap a router into a zipper with no live connections.
    pub fn new(router: R) -> (r: Zipper<R>)
        requires
            router.wf(),
            router.routes() == Map::<Seq<char>, u64>::empty(),
        ensures
            r.wf(),
            r.routes() == Map::<Seq<char>, u64>::empty(),
            forall|x: u64| !r.is_live(x),
    {
        let z = Zipper { router, conns: Vec::new() };
        proof {
            broadcast use vstd::seq_lib::group_seq_properties;

        }
        z
    }

    /// Record a newly accepted connection.
    pub fn on_connection(&mut self, conn_id: u64)
        requires
            old(self).wf(),
        ensures
            final(self).wf(),
            final(self).routes() == old(self).routes(),
            forall|x: u64| final(self).is_live(x) <==> (old(self).is_live(x) || x == conn_id),
    {
        if !contains_conn(&self.conns, conn_id) {
            self.conns.push(conn_id);
            proof {
                broadcast use vstd::seq_lib::group_seq_properties;

            }
        }
    }

    /// Handle the handshake frame of a live connection that has bound no name
    /// yet. On admission the name is bound, the previously bound connection
    /// (if any) is evicted with the displacement error code, and a 200
    /// response goes back. On refusal the response carries the refusal's
    /// status and message, nothing is bound, and the connection itself is
    /// dropped from the live set.
    pub fn on_handshake(&mut self, conn_id: u64, req: &HandshakeRequest) -> (r: HandshakeOutcome)
        requires
            old(self).wf(),
            old(self).is_live(conn_id),
            old(self).is_unbound(conn_id),
        ensures
            final(self).wf(),
            r.accepted == old(self).admits(req@),
            r.accepted ==> {
                &&& r.response.status_code == 200
                &&& r.response.error_msg@ == Seq::<char>::empty()
                &&& final(self).routes() == old(self).routes().insert(req.sfn_name@, conn_id)
                &&& match r.evict {
                    Some(e) => {
                        &&& old(self).routes().contains_key(req.sfn_name@)
                        &&& e.conn_id == old(self).routes()[req.sfn_name@]
                        &&& e.error_code == DISPLACEMENT_ERROR_CODE
                        &&& forall|x: u64|
                            final(self).is_live(x) <==> (old(self).is_live(x) && x != e.conn_id)
                    },
                    None => {
                        &&& !old(self).routes().contains_key(req.sfn_name@)
                        &&& forall|x: u64| final(self).is_live(x) <==> old(self).is_live(x)
                    },
                }
            },
            !r.accepted ==> {
                &&& final(self).routes() == old(self).routes()
                &&& r.evict is None
                &&& r.response.status_code == old(self).refusal(req@).spec_status_code()
                &&& (old(self).refusal(req@) == AdmissionError::EmptyName ==> r.response.error_msg@
                    == "sfn name is empty"@)
                &&& (old(self).refusal(req@) == AdmissionError::InvalidCredential
                    ==> r.response.error_msg@ == "invalid credential"@)
                &&& forall|x: u64| final(self).is_live(x) <==> (old(self).is_live(x) && x != conn_id)
            },
    {
        let ghost old_routes = self.router.routes();
        match self.router.handshake(conn_id, req) {
            Ok(prev) => {
                let evict = match prev {
                    Some(prev_id) => {
                        remove_conn(&mut self.conns, prev_id);
                        Some(Eviction { conn_id: prev_id, error_code: DISPLACEMENT_ERROR_CODE })
                    },
                    None => None,
                };
                proof {
                    let name = req.sfn_name@;
                    let new_routes = self.routes();
                    assert(new_routes == old_routes.insert(name, conn_id));
                    assert forall|k: Seq<char>| #[trigger]
                        new_routes.contains_key(k) implies self.is_live(new_routes[k]) by {
                        if k != name {
                            assert(old_routes.contains_key(k));
                            assert(old_routes[k] != conn_id);
                            if old_routes.contains_key(name) {
                                assert(old_routes[k] != old_routes[name]);
                            }
                        }
                    }
                    assert forall|k1: Seq<char>, k2: Seq<char>|
                        #![trigger new_routes[k1], new_routes[k2]]
                        new_routes.contains_key(k1) && new_routes.contains_key(k2) && k1
                        != k2 implies new_routes[k1] != new_routes[k2] by {
                        if k1 != name && k2 != name {
                            assert(old_routes.contains_key(k1) && old_routes.contains_key(k2));
                        } else if k1 == name {
                            assert(old_routes.contains_key(k2) && old_routes[k2] != conn_id);
                        } else {
                            assert(old_routes.contains_key(k1) && old_routes[k1] != conn_id);
                        }
                    }
                }
                HandshakeOutcome {
                    response: HandshakeResponse { status_code: 200, error_msg: String::new() },
                    accepted: true,
                    evict,
                }
            },
            Err(e) => {
                remove_conn(&mut self.conns, conn_id);
                HandshakeOutcome {
                    response: HandshakeResponse {
                        status_code: e.status_code(),
                        error_msg: e.message(),
                    },
                    accepted: false,
                    evict: None,
                }
            },
        }
    }

    /// Forget a disconnected connection and purge its routing entries.
    pub fn on_disconnect(&mut self, conn_id: u64)
        requires
            old(self).wf(),
        ensures
            final(self).wf(),
            forall|x: u64| final(self).is_live(x) <==> (old(self).is_live(x) && x != conn_id),
            forall|k: Seq<char>|
                #![trigger final(self).routes().contains_key(k)]
                final(self).routes().contains_key(k) <==> (old(self).routes().contains_key(k)
                    && old(self).routes()[k] != conn_id),
            forall|k: Seq<char>|
                #![trigger final(self).routes().contains_key(k)]
                final(self).routes().contains_key(k) ==> final(self).routes()[k] == old(
                    self,
                ).routes()[k],
    {
        remove_conn(&mut self.conns, conn_id);
        self.router.remove_sfn(conn_id);
    }

    /// Resolve request headers to the live connection owning the name.
    pub fn route_request(&self, headers: &RequestHeaders) -> (r: Option<u64>)
        requires
            self.wf(),
        ensures
            match r {
                Some(id) => self.routes().contains_key(headers.sfn_name@) && self.routes()[
                    headers.sfn_name@
                ] == id && self.is_live(id),
                None => !self.routes().contains_key(headers.sfn_name@),
            },
    {
        self.router.route(headers)
    }

    /// A connection that is no longer live is unreachable: no name routes to
    /// it, so no new stream is ever opened on it.
    pub proof fn lemma_displaced_unreachable(&self, conn_id: u64)
        requires
            self.wf(),
            !self.is_live(conn_id),
        ensures
            forall|k: Seq<char>|
                #![trigger self.routes().contains_key(k)]
                self.routes().contains_key(k) ==> self.routes()[k] != conn_id,
    {
    }
}

/// Binding a name supersedes any earlier binding: right after `name` is bound
/// to `first`, it resolves to `first`; after a later binding to `second`, it
/// resolves to `second`, whatever else the table holds.
pub proof fn lemma_displacement(
    routes: Map<Seq<char>, u64>,
    name: Seq<char>,
    first: u64,
    second: u64,
)
    ensures
        routes.insert(name, first)[name] == first,
        routes.insert(name, first).insert(name, second)[name] == second,
{
}

/// Whether a connection id is among the live ones.
fn contains_conn(conns: &Vec<u64>, conn_id: u64) -> (r: bool)
    ensures
        r == conns@.contains(conn_id),
{
    let n = conns.len();
    let mut i: usize = 0;
    while i < n
        invariant
            n == conns@.len(),
            i <= n,
            forall|j: int| 0 <= j < i ==> conns@[j] != conn_id,
        decreases n - i,
    {
        if conns[i] == conn_id {
            return true;
        }
        i = i + 1;
    }
    false
}

/// Drop every occurrence of a connection id.
fn remove_conn(conns: &mut Vec<u64>, conn_id: u64)
    ensures
        forall|x: u64| final(conns)@.contains(x) <==> (old(conns)@.contains(x) && x != conn_id),
{
    let n = conns.len();
    let mut kept: Vec<u64> = Vec::new();
    let mut i: usize = 0;
    while i < n
        invariant
            n == conns@.len(),
            i <= n,
            forall|x: u64| kept@.contains(x) <==> (conns@.subrange(0, i as int).contains(x) && x
                != conn_id),
        decreases n - i,
    {
        proof {
            broadcast use vstd::seq_lib::group_seq_properties;

            assert(conns@.subrange(0, i + 1).drop_last() =~= conns@.subrange(0, i as int));
            assert(conns@.subrange(0, i + 1) =~= conns@.subrange(0, i as int).push(
                conns@[i as int],
            ));
        }
        if conns[i] != conn_id {
            kept.push(conns[i]);
        }
        i = i + 1;
    }
    proof {
        assert(conns@.subrange(0, n as int) =~= conns@);
    }
    *conns = kept;
}

/// The body of an HTTP request handed to the zipper's ingress.
#[derive(Clone, Debug)]
pub struct HttpRequest {
    pub args: String,
    pub context: String,
}

} // verus!
