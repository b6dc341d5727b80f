use yomo::codec::{
    decode_handshake_request, decode_handshake_response, decode_request_headers,
    decode_response_headers, encode_handshake_request, encode_handshake_response,
    encode_request_headers, encode_response_headers,
};
use yomo::frame::{decode_frame, encode_frame, encode_len, FrameError, MAX_FRAME_SIZE};
use yomo::types::{
    BodyFormat, HandshakeRequest, HandshakeResponse, RequestHeaders, ResponseHeaders,
};

#[test]
fn frame_encode_layout() {
    let payload = vec![1u8, 2, 3];
    let framed = encode_frame(&payload).unwrap();
    assert_eq!(framed, vec![0u8, 0, 0, 3, 1, 2, 3]);
}

#[test]
fn frame_round_trip() {
    let payload = vec![9u8, 8, 7, 6];
    let framed = encode_frame(&payload).unwrap();
    let (decoded, end) = decode_frame(&framed, 0).unwrap().unwrap();
    assert_eq!(decoded, payload);
    assert_eq!(end, framed.len());
}

#[test]
fn frame_zero_length_is_terminator() {
    let framed = encode_frame(&Vec::new()).unwrap();
    assert_eq!(framed, vec![0u8, 0, 0, 0]);
    let (decoded, end) = decode_frame(&framed, 0).unwrap().unwrap();
    assert!(decoded.is_empty());
    assert_eq!(end, 4);
}

#[test]
fn frame_oversize_length_rejected() {
    // A declared length of 2^31 exceeds the 64 MiB cap.
    let buf = vec![0x80u8, 0, 0, 0];
    assert_eq!(decode_frame(&buf, 0), Err(FrameError::Oversize));
}

#[test]
fn frame_oversize_payload_rejected() {
    let payload = vec![0u8; MAX_FRAME_SIZE as usize + 1];
    assert_eq!(encode_frame(&payload), Err(FrameError::Oversize));
}

#[test]
fn frame_at_the_size_cap_is_accepted() {
    let payload = vec![7u8; MAX_FRAME_SIZE as usize];
    let framed = encode_frame(&payload).unwrap();
    assert_eq!(framed.len(), payload.len() + 4);
    let (decoded, _) = decode_frame(&framed, 0).unwrap().unwrap();
    assert_eq!(decoded.len(), payload.len());
}

#[test]
fn frame_truncated_rejected() {
    let buf = vec![0u8, 0, 0, 5, 1, 2];
    assert_eq!(decode_frame(&buf, 0), Err(FrameError::Truncated));
}

#[test]
fn frame_short_prefix_is_clean_eof() {
    let buf = vec![0u8, 0, 0];
    assert_eq!(decode_frame(&buf, 0), Ok(None));
}

#[test]
fn encode_len_is_big_endian() {
    assert_eq!(encode_len(0x01020304), vec![1u8, 2, 3, 4]);
}

#[test]
fn handshake_request_round_trip() {
    let req = HandshakeRequest {
        sfn_name: "upper".to_string(),
        credential: "s3cr3t".to_string(),
    };
    let bytes = encode_handshake_request(&req).unwrap();
    let back = decode_handshake_request(&bytes).unwrap();
    assert_eq!(back.sfn_name, "upper");
    assert_eq!(back.credential, "s3cr3t");
}

#[test]
fn handshake_request_empty_fields_round_trip() {
    let req = HandshakeRequest {
        sfn_name: String::new(),
        credential: String::new(),
    };
    let bytes = encode_handshake_request(&req).unwrap();
    assert_eq!(bytes, vec![0u8, 0, 0, 0, 0, 0, 0, 0]);
    let back = decode_handshake_request(&bytes).unwrap();
    assert_eq!(back.sfn_name, "");
    assert_eq!(back.credential, "");
}

#[test]
fn handshake_response_round_trip() {
    let resp = HandshakeResponse {
        status_code: 401,
        error_msg: "invalid credential".to_string(),
    };
    let bytes = encode_handshake_response(&resp).unwrap();
    let back = decode_handshake_response(&bytes).unwrap();
    assert_eq!(back.status_code, 401);
    assert_eq!(back.error_msg, "invalid credential");
}

#[test]
fn request_headers_round_trip() {
    for format in [BodyFormat::Null, BodyFormat::Bytes, BodyFormat::Chunk] {
        let h = RequestHeaders {
            sfn_name: "upper".to_string(),
            trace_id: "0af7651916cd43dd".to_string(),
            request_id: "r-1".to_string(),
            body_format: format,
            extension: "ext".to_string(),
        };
        let bytes = encode_request_headers(&h).unwrap();
        let back = decode_request_headers(&bytes).unwrap();
        assert_eq!(back.sfn_name, "upper");
        assert_eq!(back.trace_id, "0af7651916cd43dd");
        assert_eq!(back.request_id, "r-1");
        assert_eq!(back.body_format, format);
        assert_eq!(back.extension, "ext");
    }
}

#[test]
fn response_headers_round_trip() {
    let h = ResponseHeaders {
        status_code: 200,
        error_msg: String::new(),
        body_format: BodyFormat::Chunk,
        extension: String::new(),
    };
    let bytes = encode_response_headers(&h).unwrap();
    let back = decode_response_headers(&bytes).unwrap();
    assert_eq!(back.status_code, 200);
    assert_eq!(back.error_msg, "");
    assert_eq!(back.body_format, BodyFormat::Chunk);
    assert_eq!(back.extension, "");
}

#[test]
fn decode_rejects_trailing_bytes() {
    let req = HandshakeRequest {
        sfn_name: "a".to_string(),
        credential: "b".to_string(),
    };
    let mut bytes = encode_handshake_request(&req).unwrap();
    bytes.push(0);
    assert!(decode_handshake_request(&bytes).is_none());
}

#[test]
fn decode_rejects_invalid_utf8() {
    let bytes = vec![0u8, 0, 0, 1, 0xFF, 0, 0, 0, 0];
    assert!(decode_handshake_request(&bytes).is_none());
}

#[test]
fn decode_rejects_unknown_body_format() {
    let h = RequestHeaders {
        sfn_name: "a".to_string(),
        trace_id: String::new(),
        request_id: String::new(),
        body_format: BodyFormat::Null,
        extension: String::new(),
    };
    let mut bytes = encode_request_headers(&h).unwrap();
    // The tag byte follows three string fields: 4+1, 4, 4 bytes.
    assert_eq!(bytes[13], 0);
    bytes[13] = 9;
    assert!(decode_request_headers(&bytes).is_none());
}

#[test]
fn decode_rejects_truncated_message() {
    let resp = HandshakeResponse {
        status_code: 200,
        error_msg: "ok".to_string(),
    };
    let bytes = encode_handshake_response(&resp).unwrap();
    let cut = bytes[..bytes.len() - 1].to_vec();
    assert!(decode_handshake_response(&cut).is_none());
}
