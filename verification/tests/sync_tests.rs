use shell_sync::api;
use shell_sync::daemon::{
    entry_from_payload, generate_alias_content, handle_server_event, next_backoff, DaemonAction,
};
use shell_sync::hub::{handle_client_frame, WsHub};
use shell_sync::models::{HistoryEntry, HistoryHookPayload, RegisterRequest};
use shell_sync::offline::{OfflineQueue, QueueAction};
use shell_sync::protocol::{ClientMessage, ServerEvent};
use shell_sync::shell::ShellType;
use shell_sync::store::SyncStore;
use shell_sync::crypto::KeyStore;

fn register(store: &mut SyncStore, n: u32, groups: &[&str]) -> String {
    let req = RegisterRequest {
        hostname: format!("host-{n}"),
        groups: groups.iter().map(|g| g.to_string()).collect(),
        os_type: None,
        public_key: None,
    };
    let resp = api::register(
        store,
        &req,
        &format!("mid-{n}"),
        &format!("tok-{n}"),
        "linux",
        1000,
    )
    .unwrap();
    resp.auth_token
}

fn auth(hub: &mut WsHub, store: &mut SyncStore, token: &str) -> String {
    let out = handle_client_frame(
        hub,
        store,
        None,
        &ClientMessage::Auth { token: token.to_string() },
        2000,
    );
    assert!(!out.close);
    out.authenticated.unwrap()
}

#[test]
fn channel_auth_success_and_failure() {
    let mut store = SyncStore::new();
    let mut hub = WsHub::new();
    let token = register(&mut store, 1, &["default"]);
    let mid = auth(&mut hub, &mut store, &token);
    assert_eq!(mid, "mid-1");
    assert_eq!(hub.client_count(), 1);

    let out = handle_client_frame(
        &mut hub,
        &mut store,
        None,
        &ClientMessage::Auth { token: "bogus".to_string() },
        2001,
    );
    assert!(out.close);
    assert!(out.authenticated.is_none());
}

#[test]
fn ping_answers_pong() {
    let mut store = SyncStore::new();
    let mut hub = WsHub::new();
    let out = handle_client_frame(&mut hub, &mut store, None, &ClientMessage::Ping, 777);
    match out.reply.unwrap() {
        ServerEvent::Pong { data } => assert_eq!(data.timestamp, 777),
        _ => panic!("Expected pong"),
    }
}

fn entry(id: &str, command: &str, ts: i64) -> HistoryEntry {
    HistoryEntry {
        id: id.to_string(),
        command: command.to_string(),
        cwd: "/tmp".to_string(),
        exit_code: 0,
        duration_ms: 5,
        session_id: "s1".to_string(),
        machine_id: "mid-1".to_string(),
        hostname: "h1".to_string(),
        timestamp: ts,
        shell: "bash".to_string(),
        group_name: "default".to_string(),
    }
}

#[test]
fn add_then_fanout_reaches_peer_not_sender() {
    let mut store = SyncStore::new();
    let mut hub = WsHub::new();
    let t1 = register(&mut store, 1, &["default"]);
    let t2 = register(&mut store, 2, &["default"]);
    let m1 = auth(&mut hub, &mut store, &t1);
    let m2 = auth(&mut hub, &mut store, &t2);

    let alias = api::add_alias(&mut store, &t1, "gs", "git status", "default", 3000).unwrap();
    assert_eq!(alias.name, "gs");
    let targets = hub.fanout_targets(&store, &vec!["default".to_string()], Some(&m1));
    assert_eq!(targets, vec![m2.clone()]);
    assert!(!targets.contains(&m1));
}

#[test]
fn fanout_skips_disconnected_and_other_groups() {
    let mut store = SyncStore::new();
    let mut hub = WsHub::new();
    let t1 = register(&mut store, 1, &["default"]);
    let _t2 = register(&mut store, 2, &["default"]);
    let t3 = register(&mut store, 3, &["work"]);
    let m1 = auth(&mut hub, &mut store, &t1);
    let _m3 = auth(&mut hub, &mut store, &t3);
    // mid-2 never connects; mid-3 is in another group.
    let targets = hub.fanout_targets(&store, &vec!["default".to_string()], None);
    assert_eq!(targets, vec![m1]);
}

#[test]
fn history_batch_stored_and_fanned_out() {
    let mut store = SyncStore::new();
    let mut hub = WsHub::new();
    let t1 = register(&mut store, 1, &["default"]);
    let t2 = register(&mut store, 2, &["default"]);
    let m1 = auth(&mut hub, &mut store, &t1);
    let m2 = auth(&mut hub, &mut store, &t2);

    let batch = ClientMessage::HistoryBatch { entries: vec![entry("e1", "ls", 10)] };
    let out = handle_client_frame(&mut hub, &mut store, Some(&m1), &batch, 4000);
    assert_eq!(store.get_history_count(), 1);
    assert_eq!(out.deliveries.len(), 1);
    assert_eq!(out.deliveries[0].target, m2);
    match &out.deliveries[0].event {
        ServerEvent::HistorySync { data } => {
            assert_eq!(data.entries[0].command, "ls");
            assert_eq!(data.source_machine_id, m1);
        }
        _ => panic!("Expected history_sync"),
    }

    // Replaying the same batch does not grow the store.
    let out2 = handle_client_frame(&mut hub, &mut store, Some(&m1), &batch, 4001);
    assert_eq!(store.get_history_count(), 1);
    assert_eq!(out2.deliveries.len(), 1);
}

#[test]
fn key_request_relayed_to_members_only() {
    let mut store = SyncStore::new();
    let mut hub = WsHub::new();
    let t1 = register(&mut store, 1, &["team"]);
    let t2 = register(&mut store, 2, &["team"]);
    let t3 = register(&mut store, 3, &["other"]);
    let m1 = auth(&mut hub, &mut store, &t1);
    let m2 = auth(&mut hub, &mut store, &t2);
    let _m3 = auth(&mut hub, &mut store, &t3);

    let req = ClientMessage::KeyRequest {
        group_name: "team".to_string(),
        public_key: "PK2".to_string(),
    };
    let out = handle_client_frame(&mut hub, &mut store, Some(&m2), &req, 5000);
    assert_eq!(out.deliveries.len(), 1);
    assert_eq!(out.deliveries[0].target, m1);
    match &out.deliveries[0].event {
        ServerEvent::KeyRequestEvent { data } => {
            assert_eq!(data.group_name, "team");
            assert_eq!(data.requester_machine_id, m2);
            assert_eq!(data.public_key, "PK2");
        }
        _ => panic!("Expected key_request"),
    }
}

#[test]
fn key_response_delivered_to_target_with_sender_key() {
    let mut store = SyncStore::new();
    let mut hub = WsHub::new();
    let req1 = RegisterRequest {
        hostname: "h1".to_string(),
        groups: vec!["team".to_string()],
        os_type: None,
        public_key: Some("SENDERPK".to_string()),
    };
    api::register(&mut store, &req1, "mid-1", "tok-1", "linux", 1000).unwrap();
    let t2 = register(&mut store, 2, &["team"]);
    let m1 = auth(&mut hub, &mut store, "tok-1");
    let m2 = auth(&mut hub, &mut store, &t2);

    let resp = ClientMessage::KeyResponse {
        group_name: "team".to_string(),
        target_machine_id: m2.clone(),
        wrapped_key: "WRAPPED".to_string(),
    };
    let out = handle_client_frame(&mut hub, &mut store, Some(&m1), &resp, 5000);
    assert_eq!(out.deliveries.len(), 1);
    assert_eq!(out.deliveries[0].target, m2);
    match &out.deliveries[0].event {
        ServerEvent::KeyResponseEvent { data } => {
            assert_eq!(data.wrapped_key, "WRAPPED");
            assert_eq!(data.sender_public_key, "SENDERPK");
        }
        _ => panic!("Expected key_response"),
    }
}

#[test]
fn end_to_end_key_exchange_over_daemon_decisions() {
    // m1 holds the team key; m2 requests it; the daemon-side decisions wrap
    // and unwrap it through the relayed events.
    let mut ks1 = KeyStore::generate();
    ks1.create_group_key("team");
    let mut ks2 = KeyStore::generate();

    let request_event = ServerEvent::KeyRequestEvent {
        data: shell_sync::protocol::KeyRequestData {
            group_name: "team".to_string(),
            requester_machine_id: "mid-2".to_string(),
            public_key: ks2.public_key_b64(),
        },
    };
    let groups = vec!["team".to_string()];
    let actions = handle_server_event(&mut ks1, "mid-1", &groups, &request_event);
    assert_eq!(actions.len(), 1);
    let wrapped = match &actions[0] {
        DaemonAction::Send { message: ClientMessage::KeyResponse { wrapped_key, target_machine_id, .. } } => {
            assert_eq!(target_machine_id, "mid-2");
            wrapped_key.clone()
        }
        _ => panic!("Expected a key response send"),
    };

    let response_event = ServerEvent::KeyResponseEvent {
        data: shell_sync::protocol::KeyResponseData {
            group_name: "team".to_string(),
            wrapped_key: wrapped,
            sender_public_key: ks1.public_key_b64(),
        },
    };
    let actions = handle_server_event(&mut ks2, "mid-2", &groups, &response_event);
    assert!(actions.is_empty());
    assert!(ks2.has_group_key("team"));
    assert_eq!(
        ks1.get_group_key("team").unwrap(),
        ks2.get_group_key("team").unwrap()
    );
}

#[test]
fn offline_queue_drains_on_success_statuses() {
    let mut q = OfflineQueue::new();
    q.queue_operation(
        QueueAction::Add {
            name: "gs".to_string(),
            command: "git status".to_string(),
            group: "default".to_string(),
        },
        1000,
    )
    .unwrap();
    assert_eq!(q.pending_count(), 1);
    assert!(q.complete_front(200));
    assert_eq!(q.pending_count(), 0);
}

#[test]
fn offline_queue_drain_stops_on_failure_and_409_counts_as_done() {
    let mut q = OfflineQueue::new();
    q.queue_sync_request(1000).unwrap();
    q.queue_sync_request(1001).unwrap();
    q.queue_sync_request(1002).unwrap();
    assert!(q.complete_front(409));
    assert!(!q.complete_front(500));
    assert_eq!(q.pending_count(), 2);
    assert!(q.complete_front(204));
    assert!(q.complete_front(200));
    assert_eq!(q.pending_count(), 0);
}

#[test]
fn alias_event_decides_one_reconcile_each_time() {
    let mut ks = KeyStore::generate();
    let groups = vec!["default".to_string()];
    let event = ServerEvent::AliasAdded {
        data: shell_sync::models::Alias {
            id: 1,
            name: "gs".into(),
            command: "git status".into(),
            group_name: "default".into(),
            created_by_machine: "m1".into(),
            created_at: 1,
            updated_at: 1,
            version: 1,
        },
    };
    for _ in 0..2 {
        let actions = handle_server_event(&mut ks, "mid-1", &groups, &event);
        assert_eq!(actions.len(), 1);
        assert!(matches!(actions[0], DaemonAction::Resync));
    }
}

#[test]
fn alias_file_content_has_no_duplicates_after_reapply() {
    let aliases = vec![shell_sync::models::Alias {
        id: 1,
        name: "gs".into(),
        command: "git status".into(),
        group_name: "default".into(),
        created_by_machine: "m1".into(),
        created_at: 1,
        updated_at: 1,
        version: 1,
    }];
    let once = generate_alias_content(ShellType::Bash, &aliases);
    let again = generate_alias_content(ShellType::Bash, &aliases);
    assert_eq!(once, again);
    assert_eq!(once.matches("alias gs=").count(), 1);
}

#[test]
fn backoff_doubles_and_caps() {
    assert_eq!(next_backoff(1), 2);
    assert_eq!(next_backoff(16), 32);
    assert_eq!(next_backoff(32), 60);
    assert_eq!(next_backoff(60), 60);
}

#[test]
fn hook_payload_is_stamped_into_entry() {
    let payload = HistoryHookPayload {
        command: "ls".to_string(),
        cwd: "/tmp".to_string(),
        exit_code: 0,
        duration_ms: 5,
        session_id: "s1".to_string(),
        shell: "bash".to_string(),
    };
    let e = entry_from_payload(&payload, "uid-1", "mid-1", "host-1", "default", 42);
    assert_eq!(e.id, "uid-1");
    assert_eq!(e.command, "ls");
    assert_eq!(e.machine_id, "mid-1");
    assert_eq!(e.hostname, "host-1");
    assert_eq!(e.group_name, "default");
    assert_eq!(e.timestamp, 42);
}

#[test]
fn history_roundtrip_through_hub_and_daemon() {
    // A hook line arrives, is stamped, queued, pushed in a batch, fanned
    // out, and applied by a peer daemon.
    let payload =
        shell_sync::protocol::decode_hook_payload(r#"{"command":"ls","cwd":"/tmp","exit_code":0,"duration_ms":5,"session_id":"s1","shell":"bash"}"#)
            .unwrap();
    let mut local = SyncStore::new();
    let e = entry_from_payload(&payload, "uid-1", "mid-1", "host-1", "default", 42);
    local.insert_history_entry(&e);
    local.add_history_pending(&e);
    assert_eq!(local.get_history_count(), 1);
    assert_eq!(local.get_pending_history(50).len(), 1);

    let mut service = SyncStore::new();
    let mut hub = WsHub::new();
    let t1 = register(&mut service, 1, &["default"]);
    let t2 = register(&mut service, 2, &["default"]);
    let m1 = auth(&mut hub, &mut service, &t1);
    let m2 = auth(&mut hub, &mut service, &t2);

    let batch = ClientMessage::HistoryBatch { entries: local.get_pending_history(50) };
    let out = handle_client_frame(&mut hub, &mut service, Some(&m1), &batch, 5000);
    local.remove_pending_history(&vec![e.id.clone()]);
    assert_eq!(local.get_pending_history(50).len(), 0);

    assert_eq!(out.deliveries.len(), 1);
    assert_eq!(out.deliveries[0].target, m2);
    let mut peer = SyncStore::new();
    let mut peer_ks = KeyStore::generate();
    let actions = handle_server_event(
        &mut peer_ks,
        "mid-2",
        &vec!["default".to_string()],
        &out.deliveries[0].event,
    );
    match &actions[0] {
        DaemonAction::StoreHistory { entries } => {
            assert_eq!(entries[0].command, "ls");
            peer.insert_history_batch(entries);
        }
        _ => panic!("Expected a history store action"),
    }
    assert_eq!(peer.get_history_count(), 1);
}
