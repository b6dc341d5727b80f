use yomo::bridge::{
    bad_request_headers, downstream_error_headers, error_response_headers, forward_decision,
    not_found_message, ForwardDecision,
};
use yomo::connector::Connector;
use yomo::router::RouterImpl;
use yomo::types::{BodyFormat, HandshakeRequest, RequestHeaders};
use yomo::zipper::{Zipper, DISPLACEMENT_ERROR_CODE};

fn req(name: &str, credential: &str) -> HandshakeRequest {
    HandshakeRequest {
        sfn_name: name.to_string(),
        credential: credential.to_string(),
    }
}

fn headers(name: &str) -> RequestHeaders {
    RequestHeaders {
        sfn_name: name.to_string(),
        trace_id: "t".to_string(),
        request_id: "r".to_string(),
        body_format: BodyFormat::Bytes,
        extension: String::new(),
    }
}

#[test]
fn handshake_accepts_and_routes() {
    let mut zipper = Zipper::new(RouterImpl::new(None));
    zipper.on_connection(1);
    let outcome = zipper.on_handshake(1, &req("upper", ""));
    assert!(outcome.accepted);
    assert_eq!(outcome.response.status_code, 200);
    assert_eq!(outcome.response.error_msg, "");
    assert!(outcome.evict.is_none());
    assert_eq!(zipper.route_request(&headers("upper")), Some(1));
}

#[test]
fn displacement_evicts_with_error_code_one() {
    let mut zipper = Zipper::new(RouterImpl::new(None));
    zipper.on_connection(1);
    let first = zipper.on_handshake(1, &req("x", ""));
    assert!(first.accepted && first.evict.is_none());
    assert_eq!(zipper.route_request(&headers("x")), Some(1));

    zipper.on_connection(2);
    let second = zipper.on_handshake(2, &req("x", ""));
    assert!(second.accepted);
    let eviction = second.evict.expect("the prior binding must be evicted");
    assert_eq!(eviction.conn_id, 1);
    assert_eq!(eviction.error_code, DISPLACEMENT_ERROR_CODE);
    assert_eq!(eviction.error_code, 1);
    assert_eq!(zipper.route_request(&headers("x")), Some(2));
}

#[test]
fn refused_handshake_sends_status_and_drops_connection() {
    let mut zipper = Zipper::new(RouterImpl::new(Some("s3cr3t".to_string())));
    zipper.on_connection(5);
    let outcome = zipper.on_handshake(5, &req("x", ""));
    assert!(!outcome.accepted);
    assert_eq!(outcome.response.status_code, 401);
    assert_eq!(outcome.response.error_msg, "invalid credential");
    assert!(outcome.evict.is_none());
    assert_eq!(zipper.route_request(&headers("x")), None);
}

#[test]
fn empty_name_handshake_gets_400() {
    let mut zipper = Zipper::new(RouterImpl::new(None));
    zipper.on_connection(5);
    let outcome = zipper.on_handshake(5, &req("", ""));
    assert!(!outcome.accepted);
    assert_eq!(outcome.response.status_code, 400);
    assert_eq!(outcome.response.error_msg, "sfn name is empty");
}

#[test]
fn disconnect_unroutes_the_name() {
    let mut zipper = Zipper::new(RouterImpl::new(None));
    zipper.on_connection(3);
    let outcome = zipper.on_handshake(3, &req("x", ""));
    assert!(outcome.accepted);
    zipper.on_disconnect(3);
    assert_eq!(zipper.route_request(&headers("x")), None);
}

#[test]
fn forward_decision_opens_quic_downstream() {
    let mut zipper = Zipper::new(RouterImpl::new(None));
    zipper.on_connection(9);
    zipper.on_handshake(9, &req("upper", ""));
    match forward_decision(&zipper, &headers("upper")) {
        ForwardDecision::Open(Connector::Quic { conn_id }) => assert_eq!(conn_id, 9),
        _ => panic!("expected a QUIC downstream"),
    }
}

#[test]
fn forward_decision_rejects_unknown_name_with_404() {
    let zipper: Zipper<RouterImpl> = Zipper::new(RouterImpl::new(None));
    match forward_decision(&zipper, &headers("ghost")) {
        ForwardDecision::Reject(h) => {
            assert_eq!(h.status_code, 404);
            assert_eq!(h.error_msg, "downstream 'ghost' not found");
            assert_eq!(h.body_format, BodyFormat::Null);
        }
        _ => panic!("expected a rejection"),
    }
}

#[test]
fn bridge_error_frames_carry_status_and_message() {
    let bad = bad_request_headers();
    assert_eq!(bad.status_code, 400);
    assert_eq!(bad.error_msg, "failed to receive request headers");
    assert_eq!(bad.body_format, BodyFormat::Null);

    let failed = downstream_error_headers("open new stream error".to_string());
    assert_eq!(failed.status_code, 500);
    assert_eq!(failed.error_msg, "open new stream error");
    assert_eq!(failed.body_format, BodyFormat::Null);

    let rejected = error_response_headers(404, not_found_message(&"x".to_string()));
    assert_eq!(rejected.status_code, 404);
    assert_eq!(rejected.error_msg, "downstream 'x' not found");
    assert_eq!(rejected.extension, "");
}

#[test]
fn displaced_connection_is_not_routed_again() {
    let mut zipper = Zipper::new(RouterImpl::new(None));
    zipper.on_connection(1);
    zipper.on_handshake(1, &req("x", ""));
    zipper.on_connection(2);
    zipper.on_handshake(2, &req("x", ""));
    // Every later request for the name reaches the new connection only.
    for _ in 0..3 {
        assert_eq!(zipper.route_request(&headers("x")), Some(2));
    }
}
