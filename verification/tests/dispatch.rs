//! One request traced end to end through the verified plane: the SFN's
//! handshake frame, the zipper's admission and routing, the request headers
//! on the downstream stream, the SFN's dispatch to its subprocess socket, and
//! the response headers coming back.

use yomo::bridge::{forward_decision, ForwardDecision};
use yomo::codec::{
    decode_handshake_request, decode_handshake_response, decode_request_headers,
    decode_response_headers, encode_handshake_request, encode_handshake_response,
    encode_request_headers, encode_response_headers,
};
use yomo::connector::Connector;
use yomo::http::{classify_response, new_request_headers, ResponsePlan};
use yomo::router::RouterImpl;
use yomo::sfn::{check_handshake_response, Sfn};
use yomo::supervisor::{parse_advertised_addr, ServerlessHandler};
use yomo::tls::TlsConfig;
use yomo::types::{BodyFormat, ResponseHeaders};
use yomo::zipper::Zipper;

#[test]
fn one_request_through_the_whole_plane() {
    // The SFN side prepares its handshake.
    let sfn = Sfn {
        sfn_name: "upper".to_string(),
        zipper: "127.0.0.1:9000".to_string(),
        credential: None,
        tls: TlsConfig::new(),
        tls_insecure: false,
    };
    let handshake_wire = encode_handshake_request(&sfn.handshake_request()).unwrap();

    // The zipper accepts the connection and reads the handshake frame.
    let mut zipper = Zipper::new(RouterImpl::new(None));
    let conn_id = 42u64;
    zipper.on_connection(conn_id);
    let request = decode_handshake_request(&handshake_wire).unwrap();
    let outcome = zipper.on_handshake(conn_id, &request);
    assert!(outcome.accepted);

    // The response travels back and satisfies the SFN.
    let response_wire = encode_handshake_response(&outcome.response).unwrap();
    let response = decode_handshake_response(&response_wire).unwrap();
    assert!(check_handshake_response(&response).is_ok());

    // An external request arrives; the ingress mints headers and the bridge
    // routes them to the registered connection.
    let request_headers = new_request_headers(
        "upper".to_string(),
        Some("trace-7".to_string()),
        None,
        None,
        BodyFormat::Bytes,
    );
    let downstream = match forward_decision(&zipper, &request_headers) {
        ForwardDecision::Open(Connector::Quic { conn_id: id }) => id,
        _ => panic!("the registered name must route"),
    };
    assert_eq!(downstream, conn_id);

    // The headers frame crosses the stream intact.
    let headers_wire = encode_request_headers(&request_headers).unwrap();
    let at_sfn = decode_request_headers(&headers_wire).unwrap();
    assert_eq!(at_sfn.sfn_name, "upper");
    assert_eq!(at_sfn.trace_id, "trace-7");
    assert_eq!(at_sfn.request_id, request_headers.request_id);

    // The SFN dispatches to its subprocess, announced on the first line.
    let line = "127.0.0.1:17000\n".to_string();
    let addr = parse_advertised_addr(&line, line.len()).unwrap();
    let mut handler = ServerlessHandler::new();
    handler.set_address(addr);
    assert_eq!(handler.connector().unwrap().addr(), "127.0.0.1:17000");

    // The subprocess answers; the response headers classify as one byte body.
    let response_headers = ResponseHeaders {
        status_code: 200,
        error_msg: String::new(),
        body_format: BodyFormat::Bytes,
        extension: String::new(),
    };
    let response_wire = encode_response_headers(&response_headers).unwrap();
    let at_zipper = decode_response_headers(&response_wire).unwrap();
    assert!(matches!(
        classify_response(&at_zipper),
        ResponsePlan::ReadBytes
    ));
}
