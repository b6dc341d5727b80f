//! A request-routing fabric connecting HTTP clients to remotely registered
//! serverless functions (SFNs) over persistent, authenticated QUIC sessions.
//!
//! The crate holds the verified dispatch plane: length-prefixed framing, the
//! header protocol codec, the routing table with its admission policy, the
//! zipper's connection lifecycle, the SFN client's handshake and accept logic,
//! and the HTTP ingress translation. Network and process plumbing around it
//! lives outside the library and feeds it plain values.

pub mod bridge;
pub mod codec;
pub mod config;
pub mod connector;
pub mod frame;
pub mod http;
pub mod metadata;
pub mod middleware;
pub mod router;
pub mod sfn;
pub mod supervisor;
pub mod tls;
pub mod types;
pub mod zipper;
