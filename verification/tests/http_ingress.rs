use yomo::frame::encode_frame;
use yomo::http::{
    classify_response, encode_chunks, new_request_headers, not_found_response, split_chunks,
    ResponsePlan,
};
use yomo::types::{BodyFormat, ResponseHeaders};

#[test]
fn request_headers_take_given_values() {
    let h = new_request_headers(
        "upper".to_string(),
        Some("trace-1".to_string()),
        Some("req-1".to_string()),
        Some("ext".to_string()),
        BodyFormat::Bytes,
    );
    assert_eq!(h.sfn_name, "upper");
    assert_eq!(h.trace_id, "trace-1");
    assert_eq!(h.request_id, "req-1");
    assert_eq!(h.extension, "ext");
    assert_eq!(h.body_format, BodyFormat::Bytes);
}

#[test]
fn request_headers_generate_missing_ids() {
    let h = new_request_headers("upper".to_string(), None, None, None, BodyFormat::Chunk);
    assert_eq!(h.trace_id.chars().count(), 12);
    assert_eq!(h.request_id.chars().count(), 8);
    assert_eq!(h.extension, "");
}

#[test]
fn generated_ids_differ_between_requests() {
    let a = new_request_headers("n".to_string(), None, None, None, BodyFormat::Null);
    let b = new_request_headers("n".to_string(), None, None, None, BodyFormat::Null);
    // Two 12-character random ids colliding would be vanishingly unlikely.
    assert_ne!(a.trace_id, b.trace_id);
}

fn response(status: u16, format: BodyFormat) -> ResponseHeaders {
    ResponseHeaders {
        status_code: status,
        error_msg: if status == 200 { String::new() } else { "boom".to_string() },
        body_format: format,
        extension: String::new(),
    }
}

#[test]
fn classify_error_status() {
    match classify_response(&response(404, BodyFormat::Null)) {
        ResponsePlan::Error { status_code, error_msg } => {
            assert_eq!(status_code, 404);
            assert_eq!(error_msg, "boom");
        }
        _ => panic!("a non-200 status must be surfaced"),
    }
}

#[test]
fn classify_success_by_body_format() {
    assert!(matches!(
        classify_response(&response(200, BodyFormat::Null)),
        ResponsePlan::Empty
    ));
    assert!(matches!(
        classify_response(&response(200, BodyFormat::Bytes)),
        ResponsePlan::ReadBytes
    ));
    assert!(matches!(
        classify_response(&response(200, BodyFormat::Chunk)),
        ResponsePlan::StreamChunks
    ));
}

#[test]
fn not_found_answer() {
    let (status, body) = not_found_response();
    assert_eq!(status, 404);
    assert_eq!(body, "sfn not found");
}

#[test]
fn three_chunks_give_three_events_in_order() {
    let chunks: Vec<Vec<u8>> = vec![b"A ".to_vec(), b"B ".to_vec(), b"C".to_vec()];
    let body = encode_chunks(&chunks).unwrap();
    let events = split_chunks(&body).unwrap();
    assert_eq!(events.len(), 3);
    assert_eq!(events[0], b"A ".to_vec());
    assert_eq!(events[1], b"B ".to_vec());
    assert_eq!(events[2], b"C".to_vec());
}

#[test]
fn empty_chunk_list_is_just_the_terminator() {
    let body = encode_chunks(&Vec::new()).unwrap();
    assert_eq!(body, vec![0u8, 0, 0, 0]);
    let events = split_chunks(&body).unwrap();
    assert!(events.is_empty());
}

#[test]
fn chunk_stream_without_terminator_is_rejected() {
    // One well-formed frame, but the terminator never comes.
    let body = encode_frame(&b"A ".to_vec()).unwrap();
    assert!(split_chunks(&body).is_none());
}

#[test]
fn chunk_stream_ends_at_the_terminator() {
    let chunks: Vec<Vec<u8>> = vec![b"one".to_vec()];
    let mut body = encode_chunks(&chunks).unwrap();
    // Bytes after the terminator belong to no event.
    body.extend_from_slice(&[1, 2, 3]);
    let events = split_chunks(&body).unwrap();
    assert_eq!(events.len(), 1);
    assert_eq!(events[0], b"one".to_vec());
}

#[test]
fn oversize_chunk_frame_is_rejected() {
    // A declared chunk length of 2^31 exceeds the frame cap.
    let body = vec![0x80u8, 0, 0, 0];
    assert!(split_chunks(&body).is_none());
}
