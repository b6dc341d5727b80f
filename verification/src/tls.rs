//! TLS policy: which certificate material each side uses, when mutual TLS is
//! possible, and the ALPN protocol both peers must offer. Reading files and
//! building the actual TLS providers is the runtime's work; the choices are
//! made here.

use vstd::prelude::*;

verus! {

/// TLS configuration: file paths of the CA certificate and of the local
/// certificate/key pair, and whether mutual TLS is required.
#[derive(Clone, Debug)]
pub struct TlsConfig {
    pub ca_cert: Option<String>,
    pub cert: Option<String>,
    pub key: Option<String>,
    pub mutual: bool,
}

impl TlsConfig {
    /// A configuration with nothing set: development material, no mutual TLS.
    pub fn new() -> (r: TlsConfig)
        ensures
            r.ca_cert is None,
            r.cert is None,
            r.key is None,
            !r.mutual,
    {
        TlsConfig { ca_cert: None, cert: None, key: None, mutual: false }
    }
}

impl Default for TlsConfig {
    /// Same as `new`: nothing configured.
    fn default() -> (r: TlsConfig)
        ensures
            r.ca_cert is None,
            r.cert is None,
            r.key is None,
            !r.mutual,
    {
        TlsConfig::new()
    }
}

/// The ALPN protocol string both peers offer: `yomo-v2`.
pub open spec fn spec_alpn() -> Seq<u8> {
    seq![0x79u8, 0x6f, 0x6d, 0x6f, 0x2d, 0x76, 0x32]
}

/// The ALPN protocol bytes.
pub fn alpn_protocol() -> (r: Vec<u8>)
    ensures
        r@ == spec_alpn(),
{
    let mut v: Vec<u8> = Vec::new();
    v.push(0x79);
    v.push(0x6f);
    v.push(0x6d);
    v.push(0x6f);
    v.push(0x2d);
    v.push(0x76);
    v.push(0x32);
    proof {
        assert(v@ =~= spec_alpn());
    }
    v
}

/// Where certificate material comes from.
#[derive(Clone, Debug)]
pub enum TlsMaterial {
    /// Read these certificate and key files.
    Files { cert: String, key: String },
    /// Use the bundled development pair; insecure, must be logged.
    DevFallback,
}

/// Why a TLS plan cannot be made.
#[derive(Clone, Copy, Debug, PartialEq, Eq, Structural)]
pub enum TlsError {
    /// Mutual TLS on a client demands a configured certificate and key.
    MissingClientCert,
    /// No parser yielded a usable private key.
    NoPrivateKey,
    /// A parser yielded more than one private key.
    TooManyPrivateKeys,
}

/// Choose the server's certificate material: the configured pair when both
/// paths are set, the insecure development pair otherwise.
pub fn server_material_plan(c: &TlsConfig) -> (r: TlsMaterial)
    ensures
        match (&c.cert, &c.key) {
            (Some(cert), Some(key)) => r matches TlsMaterial::Files {
                cert: rc,
                key: rk,
            } && rc@ == cert@ && rk@ == key@,
            _ => r is DevFallback,
        },
{
    match (&c.cert, &c.key) {
        (Some(cert), Some(key)) => TlsMaterial::Files { cert: cert.clone(), key: key.clone() },
        _ => TlsMaterial::DevFallback,
    }
}

/// Choose the client's certificate material: none without mutual TLS, the
/// configured pair with it, and an error when mutual TLS lacks the pair.
pub fn client_material_plan(c: &TlsConfig) -> (r: Result<Option<(String, String)>, TlsError>)
    ensures
        !c.mutual ==> (r matches Ok(m) && m is None),
        c.mutual ==> match (&c.cert, &c.key) {
            (Some(cert), Some(key)) => (r matches Ok(m) && m matches Some(pair) && pair.0@ == cert@
                && pair.1@ == key@),
            _ => r == Err::<Option<(String, String)>, TlsError>(TlsError::MissingClientCert),
        },
{
    if !c.mutual {
        return Ok(None);
    }
    match (&c.cert, &c.key) {
        (Some(cert), Some(key)) => Ok(Some((cert.clone(), key.clone()))),
        _ => Err(TlsError::MissingClientCert),
    }
}

/// A private key's encoding, in the order the parsers are tried.
#[derive(Clone, Copy, Debug, PartialEq, Eq, Structural)]
pub enum KeyKind {
    Pkcs8,
    Pkcs1,
    Sec1,
}

/// Pick the private key's encoding from how many keys each parser found:
/// the first encoding that yielded exactly one key wins; one that yielded
/// several is an error; none anywhere is an error.
pub fn select_private_key(n_pkcs8: usize, n_pkcs1: usize, n_sec1: usize) -> (r: Result<
    KeyKind,
    TlsError,
>)
    ensures
        n_pkcs8 == 1 ==> r == Ok::<KeyKind, TlsError>(KeyKind::Pkcs8),
        n_pkcs8 > 1 ==> r == Err::<KeyKind, TlsError>(TlsError::TooManyPrivateKeys),
        n_pkcs8 == 0 && n_pkcs1 == 1 ==> r == Ok::<KeyKind, TlsError>(KeyKind::Pkcs1),
        n_pkcs8 == 0 && n_pkcs1 > 1 ==> r == Err::<KeyKind, TlsError>(
            TlsError::TooManyPrivateKeys,
        ),
        n_pkcs8 == 0 && n_pkcs1 == 0 && n_sec1 == 1 ==> r == Ok::<KeyKind, TlsError>(KeyKind::Sec1),
        n_pkcs8 == 0 && n_pkcs1 == 0 && n_sec1 > 1 ==> r == Err::<KeyKind, TlsError>(
            TlsError::TooManyPrivateKeys,
        ),
        n_pkcs8 == 0 && n_pkcs1 == 0 && n_sec1 == 0 ==> r == Err::<KeyKind, TlsError>(
            TlsError::NoPrivateKey,
        ),
{
    if n_pkcs8 == 1 {
        Ok(KeyKind::Pkcs8)
    } else if n_pkcs8 > 1 {
        Err(TlsError::TooManyPrivateKeys)
    } else if n_pkcs1 == 1 {
        Ok(KeyKind::Pkcs1)
    } else if n_pkcs1 > 1 {
        Err(TlsError::TooManyPrivateKeys)
    } else if n_sec1 == 1 {
        Ok(KeyKind::Sec1)
    } else if n_sec1 > 1 {
        Err(TlsError::TooManyPrivateKeys)
    } else {
        Err(TlsError::NoPrivateKey)
    }
}

} // verus!
