use yomo::middleware::{DefaultMiddleware, MiddlewareConfig};
use yomo::router::{AdmissionError, Router, RouterImpl};
use yomo::types::{BodyFormat, HandshakeRequest, RequestHeaders};

fn req(name: &str, credential: &str) -> HandshakeRequest {
    HandshakeRequest {
        sfn_name: name.to_string(),
        credential: credential.to_string(),
    }
}

fn headers(name: &str) -> RequestHeaders {
    RequestHeaders {
        sfn_name: name.to_string(),
        trace_id: String::new(),
        request_id: String::new(),
        body_format: BodyFormat::Bytes,
        extension: String::new(),
    }
}

#[test]
fn handshake_inserts_and_routes() {
    let mut router = RouterImpl::new(None);
    assert_eq!(router.handshake(7, &req("upper", "")), Ok(None));
    assert_eq!(router.route(&headers("upper")), Some(7));
    assert_eq!(router.route(&headers("other")), None);
}

#[test]
fn displacement_returns_previous_binding() {
    let mut router = RouterImpl::new(None);
    assert_eq!(router.handshake(1, &req("x", "")), Ok(None));
    assert_eq!(router.route(&headers("x")), Some(1));
    assert_eq!(router.handshake(2, &req("x", "")), Ok(Some(1)));
    assert_eq!(router.route(&headers("x")), Some(2));
}

#[test]
fn empty_name_rejected_with_400() {
    let mut router = RouterImpl::new(None);
    let r = router.handshake(1, &req("", ""));
    assert_eq!(r, Err(AdmissionError::EmptyName));
    assert_eq!(AdmissionError::EmptyName.status_code(), 400);
    assert_eq!(AdmissionError::EmptyName.message(), "sfn name is empty");
}

#[test]
fn bad_credential_rejected_with_401_and_no_route() {
    let mut router = RouterImpl::new(Some("s3cr3t".to_string()));
    let r = router.handshake(1, &req("x", ""));
    assert_eq!(r, Err(AdmissionError::InvalidCredential));
    assert_eq!(AdmissionError::InvalidCredential.status_code(), 401);
    assert_eq!(AdmissionError::InvalidCredential.message(), "invalid credential");
    assert_eq!(router.route(&headers("x")), None);
}

#[test]
fn exact_credential_admitted() {
    let mut router = RouterImpl::new(Some("s3cr3t".to_string()));
    assert_eq!(router.handshake(3, &req("x", "s3cr3t")), Ok(None));
    assert_eq!(router.route(&headers("x")), Some(3));
}

#[test]
fn no_token_accepts_any_credential() {
    let mut router = RouterImpl::new(None);
    assert_eq!(router.handshake(3, &req("x", "whatever")), Ok(None));
    assert_eq!(router.route(&headers("x")), Some(3));
}

#[test]
fn remove_sfn_purges_every_entry_of_the_connection() {
    let mut router = RouterImpl::new(None);
    assert_eq!(router.handshake(1, &req("a", "")), Ok(None));
    assert_eq!(router.handshake(2, &req("b", "")), Ok(None));
    router.remove_sfn(1);
    assert_eq!(router.route(&headers("a")), None);
    assert_eq!(router.route(&headers("b")), Some(2));
}

#[test]
fn middleware_handshake_and_route() {
    let mut mw = DefaultMiddleware::new(MiddlewareConfig { auth_token: None });
    let metadata = mw.new_request_metadata(None, None);
    assert_eq!(mw.handshake(4, "x".to_string(), None), Ok(None));
    assert_eq!(mw.route(&"x".to_string(), &metadata), Some(4));
    mw.remove_sfn(4);
    assert_eq!(mw.route(&"x".to_string(), &metadata), None);
}

#[test]
fn middleware_missing_credential_rejected_under_token() {
    let mut mw = DefaultMiddleware::new(MiddlewareConfig {
        auth_token: Some("t".to_string()),
    });
    assert_eq!(
        mw.handshake(4, "x".to_string(), None),
        Err(AdmissionError::InvalidCredential)
    );
    assert_eq!(
        mw.handshake(4, "x".to_string(), Some("wrong".to_string())),
        Err(AdmissionError::InvalidCredential)
    );
    assert_eq!(mw.handshake(4, "x".to_string(), Some("t".to_string())), Ok(None));
}
