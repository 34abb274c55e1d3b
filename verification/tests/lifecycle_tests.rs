use datatex::client::{ClientError, TexlabManager};
use datatex::codec::encode;
use datatex::message::{Message, ResponseOutcome};
use datatex::params::{
    did_change_params_ex, did_open_params_ex, initialize_params_ex, position_params_ex,
};
use datatex::texlab::get_texlab_path;

fn response_frame(id: i64, result: &[u8]) -> Vec<u8> {
    encode(&Message::Response {
        id,
        outcome: ResponseOutcome::Success { result: result.to_vec() },
    })
}

#[test]
fn test_initialize_handshake_sends_three_messages() {
    let mut mgr = TexlabManager::new();
    mgr.start(true).unwrap();
    let inbound = response_frame(1, b"{\"capabilities\":{}}");
    let mut pos = 0usize;
    let mut out: Vec<u8> = Vec::new();
    let r = mgr.initialize_handshake(4242, b"file:///tmp/proj", &inbound, &mut pos, &mut out);
    assert_eq!(r.unwrap(), b"{\"capabilities\":{}}".to_vec());
    // The initialize request, then the initialized and configuration
    // notifications.
    let mut expected = encode(&Message::Request {
        id: 1,
        method: b"initialize".to_vec(),
        params: Some(initialize_params_ex(4242, b"file:///tmp/proj")),
    });
    expected.extend_from_slice(&encode(&Message::Notification {
        method: b"initialized".to_vec(),
        params: Some(b"{}".to_vec()),
    }));
    expected.extend_from_slice(&encode(&Message::Notification {
        method: b"workspace/didChangeConfiguration".to_vec(),
        params: Some(datatex::params::settings_params_ex()),
    }));
    assert_eq!(out, expected);
}

#[test]
fn test_initialize_handshake_failure_keeps_running_state() {
    let mut mgr = TexlabManager::new();
    mgr.start(true).unwrap();
    // The server rejects the initialize request: the handshake fails,
    // the client stays running, and the caller may retry or stop.
    let inbound = encode(&Message::Response {
        id: 1,
        outcome: ResponseOutcome::Failure {
            code: -32002,
            message: b"not ready".to_vec(),
            data: None,
        },
    });
    let mut pos = 0usize;
    let mut out: Vec<u8> = Vec::new();
    assert!(matches!(
        mgr.initialize_handshake(1, b"file:///p", &inbound, &mut pos, &mut out),
        Err(ClientError::Protocol { .. })
    ));
    assert!(mgr.is_running());
}

#[test]
fn test_initialize_handshake_eof_stops_the_client() {
    let mut mgr = TexlabManager::new();
    mgr.start(true).unwrap();
    // The stream ends before any response: fatal to this client.
    let inbound: Vec<u8> = Vec::new();
    let mut pos = 0usize;
    let mut out: Vec<u8> = Vec::new();
    assert!(mgr.initialize_handshake(1, b"file:///p", &inbound, &mut pos, &mut out).is_err());
    assert!(!mgr.is_running());
}

#[test]
fn test_initialize_params_exact_text() {
    let p = initialize_params_ex(7, b"file:///home/u/proj");
    let expected = "{\"processId\":7,\"rootUri\":\"file:///home/u/proj\",\"capabilities\":{\"textDocument\":{\"completion\":{\"completionItem\":{\"snippetSupport\":true,\"documentationFormat\":[\"markdown\",\"plaintext\"]}},\"hover\":{\"contentFormat\":[\"markdown\",\"plaintext\"]},\"definition\":{\"linkSupport\":true}}}}";
    assert_eq!(p, expected.as_bytes().to_vec());
}

#[test]
fn test_position_params_exact_text() {
    let p = position_params_ex(b"file:///a.tex", 12, 34);
    let expected = "{\"textDocument\":{\"uri\":\"file:///a.tex\"},\"position\":{\"line\":12,\"character\":34}}";
    assert_eq!(p, expected.as_bytes().to_vec());
}

#[test]
fn test_position_params_escape_uri() {
    let p = position_params_ex(b"file:///a\"b\\c.tex", 0, 0);
    let expected =
        "{\"textDocument\":{\"uri\":\"file:///a\\\"b\\\\c.tex\"},\"position\":{\"line\":0,\"character\":0}}";
    assert_eq!(p, expected.as_bytes().to_vec());
}

#[test]
fn test_did_open_params_escapes_text() {
    let p = did_open_params_ex(b"file:///x.tex", b"latex", 1, b"line one\nline\ttwo");
    let expected = "{\"textDocument\":{\"uri\":\"file:///x.tex\",\"languageId\":\"latex\",\"version\":1,\"text\":\"line one\\nline\\ttwo\"}}";
    assert_eq!(p, expected.as_bytes().to_vec());
}

#[test]
fn test_did_change_params_exact_text() {
    let p = did_change_params_ex(b"file:///x.tex", -2, b"abc");
    let expected = "{\"textDocument\":{\"uri\":\"file:///x.tex\",\"version\":-2},\"contentChanges\":[{\"text\":\"abc\"}]}";
    assert_eq!(p, expected.as_bytes().to_vec());
}

#[test]
fn test_completion_request_round_trip() {
    let mut mgr = TexlabManager::new();
    mgr.start(true).unwrap();
    let inbound = response_frame(1, b"{\"items\":[]}");
    let mut pos = 0usize;
    let mut out: Vec<u8> = Vec::new();
    let r = mgr.completion(b"file:///a.tex", 1, 2, &inbound, &mut pos, &mut out);
    assert_eq!(r.unwrap(), b"{\"items\":[]}".to_vec());
    let expected = encode(&Message::Request {
        id: 1,
        method: b"textDocument/completion".to_vec(),
        params: Some(position_params_ex(b"file:///a.tex", 1, 2)),
    });
    assert_eq!(out, expected);
}

#[test]
fn test_hover_and_definition_before_start_fail() {
    let mut mgr = TexlabManager::new();
    let inbound: Vec<u8> = Vec::new();
    let mut pos = 0usize;
    let mut out: Vec<u8> = Vec::new();
    assert!(matches!(
        mgr.hover(b"file:///a.tex", 0, 0, &inbound, &mut pos, &mut out),
        Err(ClientError::NotRunning)
    ));
    assert!(matches!(
        mgr.definition(b"file:///a.tex", 0, 0, &inbound, &mut pos, &mut out),
        Err(ClientError::NotRunning)
    ));
}

#[test]
fn test_did_open_and_did_change_write_notifications() {
    let mut mgr = TexlabManager::new();
    mgr.start(true).unwrap();
    let mut out: Vec<u8> = Vec::new();
    mgr.did_open(b"file:///d.tex", b"latex", 1, b"\\documentclass{article}", &mut out).unwrap();
    mgr.did_change(b"file:///d.tex", 2, b"\\documentclass{book}", &mut out).unwrap();
    let mut expected = encode(&Message::Notification {
        method: b"textDocument/didOpen".to_vec(),
        params: Some(did_open_params_ex(b"file:///d.tex", b"latex", 1, b"\\documentclass{article}")),
    });
    expected.extend_from_slice(&encode(&Message::Notification {
        method: b"textDocument/didChange".to_vec(),
        params: Some(did_change_params_ex(b"file:///d.tex", 2, b"\\documentclass{book}")),
    }));
    assert_eq!(out, expected);
}

#[test]
fn test_texlab_path_layout() {
    assert_eq!(
        get_texlab_path(b"/home/u/.local/share", false),
        b"/home/u/.local/share/datatex/bin/texlab".to_vec()
    );
    assert_eq!(
        get_texlab_path(b"C:\\Users\\u\\AppData\\Local", true),
        b"C:\\Users\\u\\AppData\\Local\\datatex\\bin\\texlab.exe".to_vec()
    );
}
