use shell_sync::api;
use shell_sync::models::{ImportAlias, ImportRequest, RegisterRequest};
use shell_sync::store::SyncStore;

fn register_default(store: &mut SyncStore, n: u32) -> String {
    let req = RegisterRequest {
        hostname: format!("host-{n}"),
        groups: vec!["default".to_string()],
        os_type: None,
        public_key: None,
    };
    let resp = api::register(
        store,
        &req,
        &format!("mid-{n}"),
        &format!("tok-{n}"),
        "linux",
        1000,
    )
    .unwrap();
    resp.auth_token
}

#[test]
fn register_success() {
    let mut store = SyncStore::new();
    let req = RegisterRequest {
        hostname: "test-host".to_string(),
        groups: vec!["default".to_string()],
        os_type: None,
        public_key: None,
    };
    let resp = api::register(&mut store, &req, "mid-1", "tok-1", "linux", 1000).unwrap();
    assert!(!resp.machine_id.is_empty());
    assert!(!resp.auth_token.is_empty());
}

#[test]
fn register_empty_hostname_400() {
    let mut store = SyncStore::new();
    let req = RegisterRequest {
        hostname: "".to_string(),
        groups: vec!["default".to_string()],
        os_type: None,
        public_key: None,
    };
    let err = api::register(&mut store, &req, "mid-1", "tok-1", "linux", 1000).unwrap_err();
    assert_eq!(err.status, 400);
}

#[test]
fn get_aliases_requires_auth() {
    let mut store = SyncStore::new();
    let err = api::get_aliases(&mut store, "", 1000).unwrap_err();
    assert_eq!(err.status, 401);
}

#[test]
fn get_aliases_bad_token_401() {
    let mut store = SyncStore::new();
    register_default(&mut store, 1);
    let err = api::get_aliases(&mut store, "bad-token", 1000).unwrap_err();
    assert_eq!(err.status, 401);
}

#[test]
fn add_alias_success() {
    let mut store = SyncStore::new();
    let token = register_default(&mut store, 1);
    let alias = api::add_alias(&mut store, &token, "gs", "git status", "default", 2000).unwrap();
    assert_eq!(alias.name, "gs");
}

#[test]
fn add_alias_empty_name_400() {
    let mut store = SyncStore::new();
    let token = register_default(&mut store, 1);
    let err = api::add_alias(&mut store, &token, "", "git status", "default", 2000).unwrap_err();
    assert_eq!(err.status, 400);
}

#[test]
fn add_alias_invalid_chars_400() {
    let mut store = SyncStore::new();
    let token = register_default(&mut store, 1);
    let err =
        api::add_alias(&mut store, &token, "my alias", "git status", "default", 2000).unwrap_err();
    assert_eq!(err.status, 400);
}

#[test]
fn add_alias_secret_rejected() {
    let mut store = SyncStore::new();
    let token = register_default(&mut store, 1);
    let err =
        api::add_alias(&mut store, &token, "db_password", "echo hunter2", "default", 2000)
            .unwrap_err();
    assert_eq!(err.status, 400);
    assert!(err.message.contains("secret"));
    let (aliases, _) = api::get_aliases(&mut store, &token, 2001).unwrap();
    assert!(aliases.is_empty());
}

#[test]
fn add_alias_wrong_group_403() {
    let mut store = SyncStore::new();
    let token = register_default(&mut store, 1);
    let err = api::add_alias(&mut store, &token, "gs", "git status", "admin", 2000).unwrap_err();
    assert_eq!(err.status, 403);
}

#[test]
fn add_alias_duplicate_409() {
    let mut store = SyncStore::new();
    let token = register_default(&mut store, 1);
    api::add_alias(&mut store, &token, "gs", "git status", "default", 2000).unwrap();
    let err = api::add_alias(&mut store, &token, "gs", "git status", "default", 2001).unwrap_err();
    assert_eq!(err.status, 409);
}

#[test]
fn update_alias_success() {
    let mut store = SyncStore::new();
    let token = register_default(&mut store, 1);
    let alias = api::add_alias(&mut store, &token, "gs", "git status", "default", 2000).unwrap();
    let updated = api::update_alias(&mut store, &token, alias.id, "git status -sb", 3000).unwrap();
    assert_eq!(updated.command, "git status -sb");
    assert_eq!(updated.version, 2);
}

#[test]
fn delete_alias_success() {
    let mut store = SyncStore::new();
    let token = register_default(&mut store, 1);
    let alias = api::add_alias(&mut store, &token, "gs", "git status", "default", 2000).unwrap();
    let (name, group) = api::delete_alias(&mut store, &token, alias.id, 3000).unwrap();
    assert_eq!(name, "gs");
    assert_eq!(group, "default");
}

#[test]
fn delete_alias_not_found() {
    let mut store = SyncStore::new();
    let token = register_default(&mut store, 1);
    let err = api::delete_alias(&mut store, &token, 99999, 3000).unwrap_err();
    assert_eq!(err.status, 404);
}

fn import_req(names: &[(&str, &str)]) -> ImportRequest {
    ImportRequest {
        aliases: names
            .iter()
            .map(|(n, c)| ImportAlias { name: n.to_string(), command: c.to_string() })
            .collect(),
        group: "default".to_string(),
    }
}

#[test]
fn import_aliases_success() {
    let mut store = SyncStore::new();
    let token = register_default(&mut store, 1);
    let req = import_req(&[("gs", "git status"), ("gl", "git log --oneline"), ("gp", "git push")]);
    let out = api::import_aliases(&mut store, &token, &req, 2000).unwrap();
    assert_eq!(out.added.len(), 3);
    assert_eq!(out.failed.len(), 0);
}

#[test]
fn import_aliases_partial_duplicates() {
    let mut store = SyncStore::new();
    let token = register_default(&mut store, 1);
    api::add_alias(&mut store, &token, "gs", "git status", "default", 1500).unwrap();
    let req = import_req(&[("gs", "git status"), ("gl", "git log --oneline"), ("gp", "git push")]);
    let out = api::import_aliases(&mut store, &token, &req, 2000).unwrap();
    assert_eq!(out.added.len(), 2);
    assert_eq!(out.failed.len(), 1);
    assert_eq!(out.failed[0].name, "gs");
    assert!(out.failed[0].error.contains("already exists"));
}

#[test]
fn import_aliases_empty_list() {
    let mut store = SyncStore::new();
    let token = register_default(&mut store, 1);
    let req = import_req(&[]);
    let out = api::import_aliases(&mut store, &token, &req, 2000).unwrap();
    assert_eq!(out.added.len(), 0);
    assert_eq!(out.failed.len(), 0);
}

#[test]
fn import_aliases_requires_auth() {
    let mut store = SyncStore::new();
    let req = import_req(&[("gs", "git status")]);
    let err = api::import_aliases(&mut store, "", &req, 2000).unwrap_err();
    assert_eq!(err.status, 401);
}

#[test]
fn import_aliases_rejects_secrets() {
    let mut store = SyncStore::new();
    let token = register_default(&mut store, 1);
    let req = import_req(&[
        ("gs", "git status"),
        ("db_password", "echo hunter2"),
        ("gl", "git log"),
    ]);
    let out = api::import_aliases(&mut store, &token, &req, 2000).unwrap();
    assert_eq!(out.added.len(), 2);
    assert_eq!(out.failed.len(), 1);
    assert_eq!(out.failed[0].name, "db_password");
    assert!(out.failed[0].error.to_lowercase().contains("secret"));
}

#[test]
fn import_aliases_wrong_group_403() {
    let mut store = SyncStore::new();
    let token = register_default(&mut store, 1);
    let mut req = import_req(&[("gs", "git status")]);
    req.group = "admin".to_string();
    let err = api::import_aliases(&mut store, &token, &req, 2000).unwrap_err();
    assert_eq!(err.status, 403);
}

#[test]
fn import_aliases_all_duplicates() {
    let mut store = SyncStore::new();
    let token = register_default(&mut store, 1);
    api::add_alias(&mut store, &token, "gs", "git status", "default", 1500).unwrap();
    api::add_alias(&mut store, &token, "gl", "git log", "default", 1501).unwrap();
    let req = import_req(&[("gs", "git status"), ("gl", "git log")]);
    let out = api::import_aliases(&mut store, &token, &req, 2000).unwrap();
    assert_eq!(out.added.len(), 0);
    assert_eq!(out.failed.len(), 2);
}

#[test]
fn get_machines_hides_tokens() {
    let mut store = SyncStore::new();
    let token = register_default(&mut store, 1);
    register_default(&mut store, 2);
    let machines = api::get_machines(&mut store, &token, 3000).unwrap();
    assert_eq!(machines.len(), 2);
    for m in &machines {
        assert_eq!(m.auth_token, "***");
    }
}

#[test]
fn register_and_list_scenario() {
    let mut store = SyncStore::new();
    let req = RegisterRequest {
        hostname: "m1".to_string(),
        groups: vec!["default".to_string()],
        os_type: None,
        public_key: None,
    };
    let resp = api::register(&mut store, &req, "mid-1", "tok-1", "linux", 1000).unwrap();
    assert!(!resp.machine_id.is_empty());
    assert!(!resp.auth_token.is_empty());
    let (aliases, groups) = api::get_aliases(&mut store, &resp.auth_token, 1001).unwrap();
    assert_eq!(aliases.len(), 0);
    assert_eq!(groups, vec!["default".to_string()]);
}

#[test]
fn authenticated_call_bumps_last_seen() {
    let mut store = SyncStore::new();
    let token = register_default(&mut store, 1);
    let before = store.get_machine_by_token(&token).unwrap().last_seen;
    api::get_aliases(&mut store, &token, before + 500).unwrap();
    let after = store.get_machine_by_token(&token).unwrap().last_seen;
    assert_eq!(after, before + 500);
    api::get_aliases(&mut store, &token, before - 100).unwrap();
    let again = store.get_machine_by_token(&token).unwrap().last_seen;
    assert!(again >= after);
}

#[test]
fn get_shell_history_wrong_group_403() {
    let mut store = SyncStore::new();
    let token = register_default(&mut store, 1);
    let admin = "admin".to_string();
    let err =
        api::get_shell_history(&mut store, &token, None, Some(&admin), None, 2000).unwrap_err();
    assert_eq!(err.status, 403);
}

#[test]
fn get_history_limit_default() {
    let mut store = SyncStore::new();
    let token = register_default(&mut store, 1);
    api::add_alias(&mut store, &token, "gs", "git status", "default", 2000).unwrap();
    let audit = api::get_history(&mut store, &token, Some(10), 3000).unwrap();
    assert_eq!(audit.len(), 1);
    assert_eq!(audit[0].action, "add");
}
