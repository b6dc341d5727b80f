//! Configuration of the two processes, with the documented defaults.

use vstd::prelude::*;

use crate::middleware::MiddlewareConfig;
use crate::tls::TlsConfig;

verus! {

/// The default listen host.
pub fn default_host() -> (r: String)
    ensures
        r@ == "0.0.0.0"@,
{
    "0.0.0.0".to_owned()
}

/// The default QUIC port.
pub fn default_quic_port() -> (r: u16)
    ensures
        r == 9000,
{
    9000
}

/// The default HTTP port.
pub fn default_http_port() -> (r: u16)
    ensures
        r == 9001,
{
    9001
}

/// Where the QUIC server listens, and with what TLS material.
#[derive(Clone, Debug)]
pub struct QuicConfig {
    pub host: String,
    pub port: u16,
    pub tls: TlsConfig,
}

impl Default for QuicConfig {
    /// The default host on port 9000, with default TLS.
    fn default() -> (r: QuicConfig)
        ensures
            r.host@ == "0.0.0.0"@,
            r.port == 9000,
            !r.tls.mutual,
    {
        QuicConfig { host: default_host(), port: default_quic_port(), tls: TlsConfig::new() }
    }
}

/// Where the HTTP server listens.
#[derive(Clone, Debug)]
pub struct HttpConfig {
    pub host: String,
    pub port: u16,
}

impl Default for HttpConfig {
    /// The default host on port 9001.
    fn default() -> (r: HttpConfig)
        ensures
            r.host@ == "0.0.0.0"@,
            r.port == 9001,
    {
        HttpConfig { host: default_host(), port: default_http_port() }
    }
}

/// The zipper's whole configuration.
#[derive(Clone, Debug)]
pub struct ZipperConfig {
    pub quic: QuicConfig,
    pub http: HttpConfig,
    pub middleware: MiddlewareConfig,
}

impl Default for ZipperConfig {
    /// Default QUIC and HTTP listeners, no auth token.
    fn default() -> (r: ZipperConfig)
        ensures
            r.quic.port == 9000,
            r.http.port == 9001,
            r.middleware.auth_token is None,
    {
        ZipperConfig {
            quic: QuicConfig::default(),
            http: HttpConfig::default(),
            middleware: MiddlewareConfig { auth_token: None },
        }
    }
}

/// The flat serve-command configuration: one host for both listeners.
#[derive(Clone, Debug)]
pub struct ServeConfig {
    pub host: String,
    pub quic_port: u16,
    pub http_port: u16,
    pub tls: TlsConfig,
    pub auth_token: Option<String>,
}

impl Default for ServeConfig {
    /// Loopback host, QUIC 9000, HTTP 9001, no token.
    fn default() -> (r: ServeConfig)
        ensures
            r.host@ == "127.0.0.1"@,
            r.quic_port == 9000,
            r.http_port == 9001,
            r.auth_token is None,
    {
        ServeConfig {
            host: "127.0.0.1".to_owned(),
            quic_port: default_quic_port(),
            http_port: default_http_port(),
            tls: TlsConfig::new(),
            auth_token: None,
        }
    }
}

/// Where the bridge's HTTP ingress listens.
#[derive(Clone, Debug)]
pub struct HttpBridgeConfig {
    pub host: String,
    pub port: u16,
}

impl Default for HttpBridgeConfig {
    /// Loopback on port 9001.
    fn default() -> (r: HttpBridgeConfig)
        ensures
            r.host@ == "127.0.0.1"@,
            r.port == 9001,
    {
        HttpBridgeConfig { host: "127.0.0.1".to_owned(), port: default_http_port() }
    }
}

} // verus!
