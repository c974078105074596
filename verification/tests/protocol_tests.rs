use shell_sync::models::{HistoryEntry, HistoryHookPayload};
use shell_sync::protocol::{
    decode_client_message, decode_hook_payload, decode_server_event, encode_client_message,
    encode_hook_payload, encode_server_event, AuthSuccessData, ClientMessage, PongData,
    ServerEvent,
};

#[test]
fn client_auth_serializes() {
    let msg = ClientMessage::Auth { token: "abc".into() };
    let json = encode_client_message(&msg);
    assert_eq!(json, r#"{"type":"auth","token":"abc"}"#);
}

#[test]
fn client_auth_roundtrip() {
    let msg = ClientMessage::Auth { token: "tok-123".into() };
    let json = encode_client_message(&msg);
    let parsed = decode_client_message(&json).unwrap();
    match parsed {
        ClientMessage::Auth { token } => assert_eq!(token, "tok-123"),
        _ => panic!("Expected Auth variant"),
    }
}

#[test]
fn client_ping_serializes() {
    let msg = ClientMessage::Ping;
    let json = encode_client_message(&msg);
    assert_eq!(json, r#"{"type":"ping"}"#);
}

#[test]
fn server_auth_success_roundtrip() {
    let event = ServerEvent::AuthSuccess {
        data: AuthSuccessData {
            machine_id: "m1".into(),
            groups: vec!["default".into(), "work".into()],
        },
    };
    let json = encode_server_event(&event);
    assert!(json.contains(r#""event":"auth_success""#));
    let parsed = decode_server_event(&json).unwrap();
    match parsed {
        ServerEvent::AuthSuccess { data } => {
            assert_eq!(data.machine_id, "m1");
            assert_eq!(data.groups, vec!["default", "work"]);
        }
        _ => panic!("Expected AuthSuccess"),
    }
}

#[test]
fn server_auth_failed_roundtrip() {
    let event = ServerEvent::AuthFailed {
        data: shell_sync::protocol::AuthFailedData { error: "bad token".into() },
    };
    let json = encode_server_event(&event);
    let parsed = decode_server_event(&json).unwrap();
    match parsed {
        ServerEvent::AuthFailed { data } => assert_eq!(data.error, "bad token"),
        _ => panic!("Expected AuthFailed"),
    }
}

#[test]
fn server_pong_roundtrip() {
    let event = ServerEvent::Pong { data: PongData { timestamp: 1234567890 } };
    let json = encode_server_event(&event);
    let parsed = decode_server_event(&json).unwrap();
    match parsed {
        ServerEvent::Pong { data } => assert_eq!(data.timestamp, 1234567890),
        _ => panic!("Expected Pong"),
    }
}

#[test]
fn server_alias_added_roundtrip() {
    let event = ServerEvent::AliasAdded {
        data: shell_sync::models::Alias {
            id: 1,
            name: "gs".into(),
            command: "git status".into(),
            group_name: "default".into(),
            created_by_machine: "m1".into(),
            created_at: 10,
            updated_at: 20,
            version: 1,
        },
    };
    let json = encode_server_event(&event);
    let parsed = decode_server_event(&json).unwrap();
    match parsed {
        ServerEvent::AliasAdded { data } => {
            assert_eq!(data.name, "gs");
        }
        _ => panic!("Expected AliasAdded"),
    }
}

#[test]
fn unknown_type_fails() {
    let result = decode_client_message(r#"{"type":"bogus"}"#);
    assert!(result.is_none());
}

fn sample_entry(id: &str, command: &str) -> HistoryEntry {
    HistoryEntry {
        id: id.to_string(),
        command: command.to_string(),
        cwd: "/tmp".to_string(),
        exit_code: 0,
        duration_ms: 5,
        session_id: "s1".to_string(),
        machine_id: "m1".to_string(),
        hostname: "h1".to_string(),
        timestamp: 1700000000,
        shell: "bash".to_string(),
        group_name: "default".to_string(),
    }
}

#[test]
fn history_batch_roundtrip() {
    let msg = ClientMessage::HistoryBatch {
        entries: vec![sample_entry("a", "ls"), sample_entry("b", "echo \"hi\\there\"")],
    };
    let json = encode_client_message(&msg);
    let parsed = decode_client_message(&json).unwrap();
    match parsed {
        ClientMessage::HistoryBatch { entries } => {
            assert_eq!(entries.len(), 2);
            assert_eq!(entries[0].command, "ls");
            assert_eq!(entries[1].command, "echo \"hi\\there\"");
        }
        _ => panic!("Expected HistoryBatch"),
    }
}

#[test]
fn history_query_roundtrip() {
    let msg = ClientMessage::HistoryQuery {
        after_timestamp: -7,
        group_name: "team".to_string(),
        limit: 1000,
    };
    let json = encode_client_message(&msg);
    let parsed = decode_client_message(&json).unwrap();
    match parsed {
        ClientMessage::HistoryQuery { after_timestamp, group_name, limit } => {
            assert_eq!(after_timestamp, -7);
            assert_eq!(group_name, "team");
            assert_eq!(limit, 1000);
        }
        _ => panic!("Expected HistoryQuery"),
    }
}

#[test]
fn key_exchange_frames_roundtrip() {
    let req = ClientMessage::KeyRequest {
        group_name: "team".to_string(),
        public_key: "PKPK==".to_string(),
    };
    let json = encode_client_message(&req);
    match decode_client_message(&json).unwrap() {
        ClientMessage::KeyRequest { group_name, public_key } => {
            assert_eq!(group_name, "team");
            assert_eq!(public_key, "PKPK==");
        }
        _ => panic!("Expected KeyRequest"),
    }

    let resp = ClientMessage::KeyResponse {
        group_name: "team".to_string(),
        target_machine_id: "m2".to_string(),
        wrapped_key: "V1JBUA==".to_string(),
    };
    let json = encode_client_message(&resp);
    match decode_client_message(&json).unwrap() {
        ClientMessage::KeyResponse { group_name, target_machine_id, wrapped_key } => {
            assert_eq!(group_name, "team");
            assert_eq!(target_machine_id, "m2");
            assert_eq!(wrapped_key, "V1JBUA==");
        }
        _ => panic!("Expected KeyResponse"),
    }
}

#[test]
fn hook_payload_line_roundtrip() {
    let line = r#"{"command":"ls","cwd":"/tmp","exit_code":0,"duration_ms":5,"session_id":"s1","shell":"bash"}"#;
    let payload = decode_hook_payload(line).unwrap();
    assert_eq!(payload.command, "ls");
    assert_eq!(payload.cwd, "/tmp");
    assert_eq!(payload.exit_code, 0);
    assert_eq!(payload.duration_ms, 5);
    assert_eq!(payload.session_id, "s1");
    assert_eq!(payload.shell, "bash");
    assert_eq!(encode_hook_payload(&payload), line);
}

#[test]
fn hook_payload_escaped_quotes() {
    let p = HistoryHookPayload {
        command: "echo \"hi\"".to_string(),
        cwd: "/tmp/a b".to_string(),
        exit_code: -1,
        duration_ms: 12,
        session_id: "s1".to_string(),
        shell: "zsh".to_string(),
    };
    let line = encode_hook_payload(&p);
    let back = decode_hook_payload(&line).unwrap();
    assert_eq!(back.command, p.command);
    assert_eq!(back.exit_code, -1);
}

#[test]
fn decode_rejects_garbage() {
    assert!(decode_client_message("not json").is_none());
    assert!(decode_server_event(r#"{"event":"nope"}"#).is_none());
    assert!(decode_hook_payload("{}").is_none());
}
