use datatex::codec::{decode, encode, DecodeOutcome, FramingError};
use datatex::message::{classify, Message, ResponseOutcome};

fn request(id: i64, method: &[u8], params: &[u8]) -> Message {
    Message::Request { id, method: method.to_vec(), params: Some(params.to_vec()) }
}

#[test]
fn test_encode_initialize_request_exact_bytes() {
    let bytes = encode(&request(1, b"initialize", b"{}"));
    let expected: Vec<u8> =
        b"Content-Length: 58\r\n\r\n{\"jsonrpc\":\"2.0\",\"id\":1,\"method\":\"initialize\",\"params\":{}}"
            .to_vec();
    assert_eq!(bytes, expected);
}

#[test]
fn test_encode_notification_exact_bytes() {
    let bytes = encode(&Message::Notification {
        method: b"initialized".to_vec(),
        params: Some(b"{}".to_vec()),
    });
    let expected: Vec<u8> =
        b"Content-Length: 52\r\n\r\n{\"jsonrpc\":\"2.0\",\"method\":\"initialized\",\"params\":{}}"
            .to_vec();
    assert_eq!(bytes, expected);
}

#[test]
fn test_decode_of_encoded_request_round_trips() {
    let bytes = encode(&request(42, b"textDocument/hover", b"{\"x\":[1,2,{\"y\":null}]}"));
    match decode(&bytes, 0, false) {
        DecodeOutcome::Frame(payload, next) => {
            assert_eq!(next, bytes.len());
            match classify(payload) {
                Some(Message::Request { id, method, params }) => {
                    assert_eq!(id, 42);
                    assert_eq!(method, b"textDocument/hover".to_vec());
                    assert_eq!(params, Some(b"{\"x\":[1,2,{\"y\":null}]}".to_vec()));
                },
                _ => panic!("expected a request"),
            }
        },
        _ => panic!("expected a complete frame"),
    }
}

#[test]
fn test_decode_of_encoded_failure_response_round_trips() {
    let msg = Message::Response {
        id: -7,
        outcome: ResponseOutcome::Failure {
            code: -32600,
            message: b"bad \"quoted\"\nrequest".to_vec(),
            data: Some(b"[1,\"two\"]".to_vec()),
        },
    };
    let bytes = encode(&msg);
    match decode(&bytes, 0, true) {
        DecodeOutcome::Frame(payload, next) => {
            assert_eq!(next, bytes.len());
            match classify(payload) {
                Some(Message::Response { id, outcome }) => {
                    assert_eq!(id, -7);
                    match outcome {
                        ResponseOutcome::Failure { code, message, data } => {
                            assert_eq!(code, -32600);
                            assert_eq!(message, b"bad \"quoted\"\nrequest".to_vec());
                            assert_eq!(data, Some(b"[1,\"two\"]".to_vec()));
                        },
                        _ => panic!("expected a failure outcome"),
                    }
                },
                _ => panic!("expected a response"),
            }
        },
        _ => panic!("expected a complete frame"),
    }
}

#[test]
fn test_round_trip_at_identifier_extremes() {
    for id in [i64::MIN, -1, 0, 1, i64::MAX] {
        let bytes = encode(&request(id, b"m", b"null"));
        match decode(&bytes, 0, false) {
            DecodeOutcome::Frame(payload, _) => match classify(payload) {
                Some(Message::Request { id: got, .. }) => assert_eq!(got, id),
                _ => panic!("expected a request"),
            },
            _ => panic!("expected a complete frame"),
        }
    }
}

#[test]
fn test_decode_header_missing_hyphen_fails() {
    // The header name does not spell `Content-Length`, so the block
    // ends without any declared length.
    let bytes = b"ContentLength: 10\r\n\r\n0123456789".to_vec();
    match decode(&bytes, 0, false) {
        DecodeOutcome::Fail(e) => assert_eq!(e, FramingError::MissingLength),
        _ => panic!("expected a framing failure"),
    }
}

#[test]
fn test_decode_header_without_colon_fails() {
    let bytes = b"Content-Length 10\r\n\r\n0123456789".to_vec();
    match decode(&bytes, 0, false) {
        DecodeOutcome::Fail(e) => assert_eq!(e, FramingError::MalformedHeader),
        _ => panic!("expected a framing failure"),
    }
}

#[test]
fn test_decode_non_numeric_length_fails() {
    let bytes = b"Content-Length: ten\r\n\r\n0123456789".to_vec();
    match decode(&bytes, 0, false) {
        DecodeOutcome::Fail(e) => assert_eq!(e, FramingError::MalformedHeader),
        _ => panic!("expected a framing failure"),
    }
}

#[test]
fn test_decode_tolerates_other_headers_and_case() {
    let bytes =
        b"Content-Type: application/vscode-jsonrpc\r\ncontent-length: 20\r\n\r\n{\"method\":\"m/n\"}    "
            .to_vec();
    match decode(&bytes, 0, false) {
        DecodeOutcome::Frame(payload, next) => {
            assert_eq!(next, bytes.len());
            match classify(payload) {
                Some(Message::Notification { method, params }) => {
                    assert_eq!(method, b"m/n".to_vec());
                    assert!(params.is_none());
                },
                _ => panic!("expected a notification"),
            }
        },
        _ => panic!("expected a complete frame"),
    }
}

#[test]
fn test_decode_needs_more_bytes_until_payload_complete() {
    let full = encode(&request(3, b"shutdown", b"null"));
    let cut = &full[..full.len() - 1];
    assert!(matches!(decode(cut, 0, false), DecodeOutcome::NeedMore));
    // Once the stream has ended, the partial frame is a failure.
    match decode(cut, 0, true) {
        DecodeOutcome::Fail(e) => assert_eq!(e, FramingError::UnexpectedEof),
        _ => panic!("expected a framing failure at end of stream"),
    }
    assert!(matches!(decode(&full, 0, true), DecodeOutcome::Frame(_, _)));
}

#[test]
fn test_decode_invalid_payload_fails() {
    let bytes = b"Content-Length: 7\r\n\r\nnot?qjs".to_vec();
    match decode(&bytes, 0, false) {
        DecodeOutcome::Fail(e) => assert_eq!(e, FramingError::InvalidPayload),
        _ => panic!("expected a framing failure"),
    }
}

#[test]
fn test_decode_blank_line_tolerance_has_a_limit() {
    let mut bytes: Vec<u8> = Vec::new();
    for _ in 0..100 {
        bytes.extend_from_slice(b"\r\n");
    }
    bytes.extend_from_slice(b"Content-Length: 16\r\n\r\n{\"method\":\"a\"}  ");
    assert!(matches!(decode(&bytes, 0, false), DecodeOutcome::Frame(_, _)));
    let mut over: Vec<u8> = Vec::new();
    for _ in 0..101 {
        over.extend_from_slice(b"\r\n");
    }
    over.extend_from_slice(b"Content-Length: 16\r\n\r\n{\"method\":\"a\"}  ");
    match decode(&over, 0, false) {
        DecodeOutcome::Fail(e) => assert_eq!(e, FramingError::BlankLineLimit),
        _ => panic!("expected a framing failure"),
    }
}

#[test]
fn test_decode_duplicate_length_header_fails() {
    let bytes = b"Content-Length: 4\r\nContent-Length: 4\r\n\r\nnull".to_vec();
    match decode(&bytes, 0, false) {
        DecodeOutcome::Fail(e) => assert_eq!(e, FramingError::MalformedHeader),
        _ => panic!("expected a framing failure"),
    }
}

fn frame(payload: &[u8]) -> Vec<u8> {
    [format!("Content-Length: {}\r\n\r\n", payload.len()).into_bytes(), payload.to_vec()].concat()
}

#[test]
fn test_classify_shapes() {
    // A payload with both an identifier and a method is a request; a
    // response carries exactly one of result and error; anything else
    // is no message.
    let framed = frame(b"{\"id\":1,\"method\":\"m\",\"x\":0}");
    match decode(&framed, 0, false) {
        DecodeOutcome::Frame(p, _) => {
            assert!(matches!(classify(p), Some(Message::Request { .. })));
        },
        _ => panic!("expected a frame"),
    }
    // Neither result nor error: unclassifiable.
    let framed = frame(b"{\"id\":1}");
    match decode(&framed, 0, false) {
        DecodeOutcome::Frame(p, _) => assert!(classify(p).is_none()),
        _ => panic!("expected a frame"),
    }
    // Both result and error: unclassifiable.
    let framed = frame(b"{\"id\":1,\"result\":1,\"error\":{\"code\":1,\"message\":\"m\"}}");
    match decode(&framed, 0, false) {
        DecodeOutcome::Frame(p, _) => assert!(classify(p).is_none()),
        _ => panic!("expected a frame"),
    }
}
