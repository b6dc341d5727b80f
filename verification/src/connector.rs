//! Connectors: how a bridge opens its downstream stream. A connector is a
//! plain description — dial this TCP address, open a bidi stream on that QUIC
//! connection, allocate an in-memory pair — and the runtime opens the actual
//! stream it names.

use vstd::prelude::*;

verus! {

/// Buffer size of the in-memory pair behind the external HTTP ingress.
pub const INGRESS_BUF_SIZE: usize = 4 * 1024 * 1024;

/// Buffer size of the in-memory pairs used for local bridging.
pub const LOCAL_BUF_SIZE: usize = 16 * 1024;

/// Opens a TCP connection to a fixed address.
#[derive(Clone, Debug)]
pub struct TcpConnector {
    tcp_addr: String,
}

impl TcpConnector {
    /// The address this connector dials.
    pub closed spec fn addr_view(&self) -> Seq<char> {
        self.tcp_addr@
    }

    /// Make a connector for one address.
    pub fn new(tcp_addr: &str) -> (r: TcpConnector)
        ensures
            r.addr_view() == tcp_addr@,
    {
        TcpConnector { tcp_addr: tcp_addr.to_owned() }
    }

    /// The address to dial.
    pub fn addr(&self) -> (r: &str)
        ensures
            r@ == self.addr_view(),
    {
        self.tcp_addr.as_str()
    }
}

/// A downstream to open: over TCP, over an existing QUIC connection, or over
/// an in-memory pair of the given buffer size.
#[derive(Clone, Debug)]
pub enum Connector {
    Tcp(TcpConnector),
    Quic { conn_id: u64 },
    Memory { max_buf_size: usize },
}

} // verus!
