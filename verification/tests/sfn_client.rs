use yomo::sfn::{
    accept_step, check_handshake_response, parse_zipper_addr, AcceptAction, AcceptEvent, Sfn,
    SfnError,
};
use yomo::tls::TlsConfig;
use yomo::types::HandshakeResponse;

#[test]
fn parse_addr_host_and_port() {
    let parsed = parse_zipper_addr(&"localhost:9000".to_string()).unwrap();
    assert_eq!(parsed.0, "localhost");
    assert_eq!(parsed.1, 9000);
}

#[test]
fn parse_addr_splits_at_first_colon() {
    assert_eq!(
        parse_zipper_addr(&"a:b:9".to_string()),
        Err(SfnError::InvalidPort)
    );
}

#[test]
fn parse_addr_without_colon_is_invalid() {
    assert_eq!(
        parse_zipper_addr(&"localhost".to_string()),
        Err(SfnError::InvalidZipperAddr)
    );
}

#[test]
fn parse_addr_port_bounds() {
    assert_eq!(
        parse_zipper_addr(&"h:65535".to_string()).unwrap(),
        ("h".to_string(), 65535)
    );
    assert_eq!(
        parse_zipper_addr(&"h:65536".to_string()),
        Err(SfnError::InvalidPort)
    );
    assert_eq!(parse_zipper_addr(&"h:".to_string()), Err(SfnError::InvalidPort));
    assert_eq!(
        parse_zipper_addr(&"h:9k".to_string()),
        Err(SfnError::InvalidPort)
    );
}

#[test]
fn parse_addr_empty_host_is_allowed() {
    let parsed = parse_zipper_addr(&":9000".to_string()).unwrap();
    assert_eq!(parsed.0, "");
    assert_eq!(parsed.1, 9000);
}

fn sfn(credential: Option<&str>) -> Sfn {
    Sfn {
        sfn_name: "upper".to_string(),
        zipper: "127.0.0.1:9000".to_string(),
        credential: credential.map(|c| c.to_string()),
        tls: TlsConfig::new(),
        tls_insecure: false,
    }
}

#[test]
fn handshake_request_carries_name_and_credential() {
    let req = sfn(Some("s3cr3t")).handshake_request();
    assert_eq!(req.sfn_name, "upper");
    assert_eq!(req.credential, "s3cr3t");
}

#[test]
fn handshake_request_defaults_to_empty_credential() {
    let req = sfn(None).handshake_request();
    assert_eq!(req.credential, "");
}

#[test]
fn handshake_response_200_is_accepted() {
    let resp = HandshakeResponse {
        status_code: 200,
        error_msg: String::new(),
    };
    assert!(check_handshake_response(&resp).is_ok());
}

#[test]
fn handshake_response_401_is_fatal() {
    let resp = HandshakeResponse {
        status_code: 401,
        error_msg: "invalid credential".to_string(),
    };
    assert_eq!(
        check_handshake_response(&resp),
        Err(SfnError::HandshakeRefused { status_code: 401 })
    );
}

#[test]
fn accept_loop_decisions() {
    assert_eq!(accept_step(&AcceptEvent::Stream), AcceptAction::HandleStream);
    assert_eq!(accept_step(&AcceptEvent::Closed), AcceptAction::ExitOk);
    assert_eq!(
        accept_step(&AcceptEvent::ApplicationClose { error_code: 1 }),
        AcceptAction::ExitOk
    );
    assert_eq!(accept_step(&AcceptEvent::TransportError), AcceptAction::Fail);
}
