use yomo::config::{
    default_host, default_http_port, default_quic_port, HttpBridgeConfig, HttpConfig, QuicConfig,
    ServeConfig, ZipperConfig,
};
use yomo::metadata::{Metadata, RequestMetadata};
use yomo::middleware::HttpMiddlewareImpl;
use yomo::supervisor::{parse_advertised_addr, trim_line, ServerlessHandler, SupervisorError};
use yomo::tls::{
    alpn_protocol, client_material_plan, select_private_key, server_material_plan, KeyKind,
    TlsConfig, TlsError, TlsMaterial,
};

#[test]
fn advertised_addr_is_the_trimmed_line() {
    let line = "127.0.0.1:17000\n".to_string();
    let addr = parse_advertised_addr(&line, line.len()).unwrap();
    assert_eq!(addr, "127.0.0.1:17000");
}

#[test]
fn zero_bytes_read_is_a_dead_child() {
    assert_eq!(
        parse_advertised_addr(&String::new(), 0),
        Err(SupervisorError::NoAddressLine)
    );
}

#[test]
fn blank_line_is_an_empty_address() {
    let line = " \r\n".to_string();
    assert_eq!(
        parse_advertised_addr(&line, line.len()),
        Err(SupervisorError::EmptyAddress)
    );
}

#[test]
fn trim_removes_both_ends_only() {
    assert_eq!(trim_line(&"\t a b \r\n".to_string()), "a b");
    assert_eq!(trim_line(&"addr".to_string()), "addr");
    assert_eq!(trim_line(&String::new()), "");
}

#[test]
fn handler_forwards_only_after_the_address_is_published() {
    let mut handler = ServerlessHandler::new();
    assert_eq!(handler.connector().unwrap_err(), SupervisorError::NotStarted);
    handler.set_address("127.0.0.1:17000".to_string());
    let connector = handler.connector().unwrap();
    assert_eq!(connector.addr(), "127.0.0.1:17000");
}

#[test]
fn alpn_is_yomo_v2() {
    assert_eq!(alpn_protocol(), b"yomo-v2".to_vec());
}

#[test]
fn server_uses_configured_pair_or_dev_fallback() {
    let configured = TlsConfig {
        ca_cert: None,
        cert: Some("cert.pem".to_string()),
        key: Some("key.pem".to_string()),
        mutual: false,
    };
    match server_material_plan(&configured) {
        TlsMaterial::Files { cert, key } => {
            assert_eq!(cert, "cert.pem");
            assert_eq!(key, "key.pem");
        }
        TlsMaterial::DevFallback => panic!("configured material must be used"),
    }
    assert!(matches!(
        server_material_plan(&TlsConfig::new()),
        TlsMaterial::DevFallback
    ));
}

#[test]
fn mutual_client_requires_cert_and_key() {
    let mut config = TlsConfig::new();
    config.mutual = true;
    assert_eq!(client_material_plan(&config), Err(TlsError::MissingClientCert));
    config.cert = Some("c.pem".to_string());
    config.key = Some("k.pem".to_string());
    let pair = client_material_plan(&config).unwrap().unwrap();
    assert_eq!(pair.0, "c.pem");
    assert_eq!(pair.1, "k.pem");
    assert_eq!(client_material_plan(&TlsConfig::new()), Ok(None));
}

#[test]
fn private_key_selection_order_and_errors() {
    assert_eq!(select_private_key(1, 0, 0), Ok(KeyKind::Pkcs8));
    assert_eq!(select_private_key(0, 1, 5), Ok(KeyKind::Pkcs1));
    assert_eq!(select_private_key(0, 0, 1), Ok(KeyKind::Sec1));
    assert_eq!(select_private_key(2, 1, 0), Err(TlsError::TooManyPrivateKeys));
    assert_eq!(select_private_key(0, 0, 0), Err(TlsError::NoPrivateKey));
}

#[test]
fn documented_defaults() {
    assert_eq!(default_host(), "0.0.0.0");
    assert_eq!(default_quic_port(), 9000);
    assert_eq!(default_http_port(), 9001);
    let quic = QuicConfig::default();
    assert_eq!(quic.host, "0.0.0.0");
    assert_eq!(quic.port, 9000);
    let http = HttpConfig::default();
    assert_eq!(http.port, 9001);
    let zipper = ZipperConfig::default();
    assert!(zipper.middleware.auth_token.is_none());
    let serve = ServeConfig::default();
    assert_eq!(serve.host, "127.0.0.1");
    assert_eq!(serve.quic_port, 9000);
    assert_eq!(serve.http_port, 9001);
    let bridge = HttpBridgeConfig::default();
    assert_eq!(bridge.host, "127.0.0.1");
    assert_eq!(bridge.port, 9001);
}

#[test]
fn metadata_keeps_given_ids_and_generates_missing_ones() {
    let given = RequestMetadata::new(Some("t-1".to_string()), Some("r-1".to_string()));
    assert_eq!(given.trace_id(), "t-1");
    assert_eq!(given.req_id(), "r-1");
    let fresh = RequestMetadata::new(None, None);
    assert_eq!(fresh.trace_id.chars().count(), 12);
    assert_eq!(fresh.req_id.chars().count(), 8);
    let minted = HttpMiddlewareImpl.new_metadata(None, Some("r-9".to_string()));
    assert_eq!(minted.req_id, "r-9");
    assert_eq!(minted.trace_id.chars().count(), 12);
}
