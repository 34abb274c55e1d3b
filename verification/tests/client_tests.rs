use datatex::client::{take_response, AwaitOutcome, ClientError, TexlabManager};
use datatex::codec::encode;
use datatex::message::{Message, ResponseOutcome};

fn response_frame(id: i64, result: &[u8]) -> Vec<u8> {
    encode(&Message::Response {
        id,
        outcome: ResponseOutcome::Success { result: result.to_vec() },
    })
}

fn notification_frame(method: &[u8], params: &[u8]) -> Vec<u8> {
    encode(&Message::Notification { method: method.to_vec(), params: Some(params.to_vec()) })
}

#[test]
fn test_notification_then_response_yields_result() {
    // A notification frame right before the awaited response is
    // invisible to the caller.
    let mut inbound = notification_frame(b"window/logMessage", b"{\"message\":\"hi\"}");
    inbound.extend_from_slice(&response_frame(7, b"{\"ok\":true}"));
    let mut pos = 0usize;
    match take_response(&inbound, &mut pos, 7, true) {
        AwaitOutcome::Done(v) => assert_eq!(v, b"{\"ok\":true}".to_vec()),
        _ => panic!("expected the matching response's result"),
    }
    assert_eq!(pos, inbound.len());
}

#[test]
fn test_send_request_awaiting_id_seven_sees_through_notification() {
    // Six requests are answered plainly; the seventh's response is
    // preceded by a notification, which the caller never sees.
    let mut inbound: Vec<u8> = Vec::new();
    for id in 1..=6 {
        inbound.extend_from_slice(&response_frame(id, b"null"));
    }
    inbound.extend_from_slice(&notification_frame(b"window/logMessage", b"{\"type\":3}"));
    inbound.extend_from_slice(&response_frame(7, b"{\"ok\":true}"));
    let mut mgr = TexlabManager::new();
    mgr.start(true).unwrap();
    let mut pos = 0usize;
    let mut out: Vec<u8> = Vec::new();
    for _ in 1..=6 {
        mgr.send_request(b"textDocument/hover", Some(b"{}"), &inbound, &mut pos, &mut out)
            .unwrap();
    }
    let r = mgr.send_request(b"textDocument/completion", Some(b"{}"), &inbound, &mut pos, &mut out);
    assert_eq!(r.unwrap(), b"{\"ok\":true}".to_vec());
    assert_eq!(pos, inbound.len());
}

#[test]
fn test_stray_response_is_skipped() {
    let mut inbound = response_frame(99, b"\"stale\"");
    inbound.extend_from_slice(&response_frame(1, b"\"fresh\""));
    let mut mgr = TexlabManager::new();
    mgr.start(true).unwrap();
    let mut pos = 0usize;
    let mut out: Vec<u8> = Vec::new();
    let r = mgr.send_request(b"textDocument/hover", Some(b"{}"), &inbound, &mut pos, &mut out);
    assert_eq!(r.unwrap(), b"\"fresh\"".to_vec());
}

#[test]
fn test_send_request_writes_frame_and_returns_result() {
    let inbound = response_frame(1, b"null");
    let mut mgr = TexlabManager::new();
    mgr.start(true).unwrap();
    let mut pos = 0usize;
    let mut out: Vec<u8> = Vec::new();
    let r = mgr.send_request(b"shutdown", Some(b"null"), &inbound, &mut pos, &mut out);
    assert_eq!(r.unwrap(), b"null".to_vec());
    assert_eq!(out, encode(&Message::Request {
        id: 1,
        method: b"shutdown".to_vec(),
        params: Some(b"null".to_vec()),
    }));
}

#[test]
fn test_peer_error_object_becomes_protocol_failure() {
    let inbound = encode(&Message::Response {
        id: 1,
        outcome: ResponseOutcome::Failure {
            code: -32601,
            message: b"method not found".to_vec(),
            data: None,
        },
    });
    let mut mgr = TexlabManager::new();
    mgr.start(true).unwrap();
    let mut pos = 0usize;
    let mut out: Vec<u8> = Vec::new();
    match mgr.send_request(b"nope", Some(b"{}"), &inbound, &mut pos, &mut out) {
        Err(ClientError::Protocol { code, message }) => {
            assert_eq!(code, -32601);
            assert_eq!(message, b"method not found".to_vec());
        },
        _ => panic!("expected a protocol failure"),
    }
}

#[test]
fn test_peer_request_is_unexpected() {
    let inbound = encode(&Message::Request {
        id: 5,
        method: b"workspace/configuration".to_vec(),
        params: Some(b"{}".to_vec()),
    });
    let mut mgr = TexlabManager::new();
    mgr.start(true).unwrap();
    let mut pos = 0usize;
    let mut out: Vec<u8> = Vec::new();
    assert!(matches!(
        mgr.send_request(b"m", Some(b"{}"), &inbound, &mut pos, &mut out),
        Err(ClientError::UnexpectedMessage)
    ));
}

#[test]
fn test_end_of_stream_is_fatal_and_later_calls_fail_fast() {
    let inbound: Vec<u8> = Vec::new();
    let mut mgr = TexlabManager::new();
    mgr.start(true).unwrap();
    let mut pos = 0usize;
    let mut out: Vec<u8> = Vec::new();
    assert!(matches!(
        mgr.send_request(b"m", Some(b"{}"), &inbound, &mut pos, &mut out),
        Err(ClientError::Framing(_))
    ));
    // The pipe closed: the client is finished, and only a fresh
    // client can resume service.
    assert!(!mgr.is_running());
    assert!(matches!(
        mgr.send_request(b"m", Some(b"{}"), &inbound, &mut pos, &mut out),
        Err(ClientError::NotRunning)
    ));
    assert!(matches!(mgr.start(true), Err(ClientError::AlreadyRunning)));
}

#[test]
fn test_double_start_is_rejected() {
    let mut mgr = TexlabManager::new();
    assert!(mgr.start(true).is_ok());
    assert!(mgr.is_running());
    assert!(matches!(mgr.start(true), Err(ClientError::AlreadyRunning)));
    assert!(mgr.is_running());
}

#[test]
fn test_failed_spawn_leaves_client_unstarted() {
    let mut mgr = TexlabManager::new();
    assert!(matches!(mgr.start(false), Err(ClientError::Spawn)));
    assert!(!mgr.is_running());
    // A fresh start attempt may still succeed.
    assert!(mgr.start(true).is_ok());
    assert!(mgr.is_running());
}

#[test]
fn test_request_before_start_is_rejected() {
    let mut mgr = TexlabManager::new();
    let inbound: Vec<u8> = Vec::new();
    let mut pos = 0usize;
    let mut out: Vec<u8> = Vec::new();
    assert!(matches!(
        mgr.send_request(b"textDocument/hover", Some(b"{}"), &inbound, &mut pos, &mut out),
        Err(ClientError::NotRunning)
    ));
    assert!(matches!(
        mgr.send_notification(b"initialized", Some(b"{}"), &mut out),
        Err(ClientError::NotRunning)
    ));
    assert!(out.is_empty());
}

#[test]
fn test_stop_before_start_is_rejected() {
    let mut mgr = TexlabManager::new();
    let inbound: Vec<u8> = Vec::new();
    let mut pos = 0usize;
    let mut out: Vec<u8> = Vec::new();
    assert!(matches!(mgr.stop(&inbound, &mut pos, &mut out), Err(ClientError::NotRunning)));
    assert!(out.is_empty());
}

#[test]
fn test_stop_issues_shutdown_and_exit_and_stops() {
    let mut mgr = TexlabManager::new();
    mgr.start(true).unwrap();
    // The peer answers the shutdown request.
    let inbound = response_frame(1, b"null");
    let mut pos = 0usize;
    let mut out: Vec<u8> = Vec::new();
    assert!(mgr.stop(&inbound, &mut pos, &mut out).is_ok());
    assert!(!mgr.is_running());
    let mut expected = encode(&Message::Request {
        id: 1,
        method: b"shutdown".to_vec(),
        params: Some(b"null".to_vec()),
    });
    expected.extend_from_slice(&encode(&Message::Notification {
        method: b"exit".to_vec(),
        params: Some(b"null".to_vec()),
    }));
    assert_eq!(out, expected);
    // Stopped for good: a second stop is rejected.
    assert!(matches!(mgr.stop(&inbound, &mut pos, &mut out), Err(ClientError::NotRunning)));
}

#[test]
fn test_stop_succeeds_even_without_a_shutdown_response() {
    let mut mgr = TexlabManager::new();
    mgr.start(true).unwrap();
    let inbound: Vec<u8> = Vec::new();
    let mut pos = 0usize;
    let mut out: Vec<u8> = Vec::new();
    assert!(mgr.stop(&inbound, &mut pos, &mut out).is_ok());
    assert!(!mgr.is_running());
    assert!(!out.is_empty());
}

#[test]
fn test_request_ids_increase_across_calls() {
    let mut mgr = TexlabManager::new();
    mgr.start(true).unwrap();
    let mut out: Vec<u8> = Vec::new();
    let a = mgr.send_request_frame(b"a", None, &mut out).unwrap();
    let b = mgr.send_request_frame(b"b", None, &mut out).unwrap();
    let c = mgr.send_request_frame(b"c", None, &mut out).unwrap();
    assert_eq!((a, b, c), (1, 2, 3));
}

#[test]
fn test_request_without_params_omits_the_field() {
    let mut mgr = TexlabManager::new();
    mgr.start(true).unwrap();
    let mut out: Vec<u8> = Vec::new();
    mgr.send_request_frame(b"shutdown", None, &mut out).unwrap();
    let payload = b"{\"jsonrpc\":\"2.0\",\"id\":1,\"method\":\"shutdown\"}";
    assert_eq!(
        out,
        [format!("Content-Length: {}\r\n\r\n", payload.len()).into_bytes(), payload.to_vec()]
            .concat()
    );
}
