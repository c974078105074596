use shell_sync::store::SyncStore;

fn setup() -> SyncStore {
    SyncStore::new()
}

fn seed_machine(db: &mut SyncStore, id: &str) -> String {
    let token = format!("tok-{id}");
    let groups = vec!["default".to_string()];
    db.register_machine(id, &format!("host-{id}"), &groups, "macos", &token, None, 1000)
        .unwrap();
    token
}

#[test]
fn register_and_get_by_token() {
    let mut db = setup();
    let token = seed_machine(&mut db, "m1");
    let machine = db.get_machine_by_token(&token).unwrap();
    assert_eq!(machine.machine_id, "m1");
    assert_eq!(machine.hostname, "host-m1");
    assert_eq!(machine.groups, vec!["default".to_string()]);
    assert_eq!(machine.os_type, Some("macos".to_string()));
    assert_eq!(machine.auth_token, token);
}

#[test]
fn get_by_token_unknown_returns_none() {
    let db = setup();
    assert!(db.get_machine_by_token("nonexistent").is_none());
}

#[test]
fn register_upsert_updates_hostname_groups() {
    let mut db = setup();
    seed_machine(&mut db, "m1");
    let groups = vec!["work".to_string(), "ops".to_string()];
    db.register_machine("m1", "new-host", &groups, "linux", "tok-new", None, 2000)
        .unwrap();
    let machine = db.get_machine_by_token("tok-m1").unwrap();
    assert_eq!(machine.hostname, "new-host");
    assert_eq!(machine.groups, vec!["work".to_string(), "ops".to_string()]);
}

#[test]
fn get_all_machines() {
    let mut db = setup();
    seed_machine(&mut db, "m1");
    seed_machine(&mut db, "m2");
    seed_machine(&mut db, "m3");
    assert_eq!(db.get_all_machines().len(), 3);
}

#[test]
fn get_machines_by_group() {
    let mut db = setup();
    db.register_machine("m1", "h1", &vec!["default".to_string()], "macos", "t1", None, 1)
        .unwrap();
    db.register_machine("m2", "h2", &vec!["work".to_string()], "linux", "t2", None, 1)
        .unwrap();
    db.register_machine(
        "m3",
        "h3",
        &vec!["default".to_string(), "work".to_string()],
        "macos",
        "t3",
        None,
        1,
    )
    .unwrap();

    let default_machines = db.get_machines_by_group("default");
    assert_eq!(default_machines.len(), 2);

    let work_machines = db.get_machines_by_group("work");
    assert_eq!(work_machines.len(), 2);

    let empty = db.get_machines_by_group("nonexistent");
    assert!(empty.is_empty());
}

#[test]
fn update_last_seen() {
    let mut db = setup();
    let token = seed_machine(&mut db, "m1");
    let before = db.get_machine_by_token(&token).unwrap().last_seen;
    db.update_machine_last_seen("m1", before + 10);
    let after = db.get_machine_by_token(&token).unwrap().last_seen;
    assert!(after >= before);
}

#[test]
fn add_alias_returns_correct_fields() {
    let mut db = setup();
    seed_machine(&mut db, "m1");
    let alias = db.add_alias("gs", "git status", "default", "m1", 5000).unwrap();
    assert!(alias.id > 0);
    assert_eq!(alias.version, 1);
    assert_eq!(alias.name, "gs");
    assert_eq!(alias.command, "git status");
    assert_eq!(alias.group_name, "default");
}

#[test]
fn add_alias_logs_history() {
    let mut db = setup();
    seed_machine(&mut db, "m1");
    db.add_alias("gs", "git status", "default", "m1", 5000).unwrap();
    let history = db.get_history(10);
    assert!(!history.is_empty());
    assert_eq!(history[0].action, "add");
    assert_eq!(history[0].alias_name, "gs");
}

#[test]
fn add_alias_duplicate_fails() {
    let mut db = setup();
    seed_machine(&mut db, "m1");
    db.add_alias("gs", "git status", "default", "m1", 5000).unwrap();
    let err = db.add_alias("gs", "git status -sb", "default", "m1", 5001);
    assert!(err.is_err());
}

#[test]
fn add_alias_same_name_different_group() {
    let mut db = setup();
    seed_machine(&mut db, "m1");
    db.add_alias("gs", "git status", "default", "m1", 5000).unwrap();
    db.add_alias("gs", "git stash", "work", "m1", 5001).unwrap();
    let a1 = db.get_alias_by_name("gs", "default").unwrap();
    assert_eq!(a1.command, "git status");
    let a2 = db.get_alias_by_name("gs", "work").unwrap();
    assert_eq!(a2.command, "git stash");
}

#[test]
fn get_alias_by_id() {
    let mut db = setup();
    seed_machine(&mut db, "m1");
    let alias = db.add_alias("gs", "git status", "default", "m1", 5000).unwrap();
    let fetched = db.get_alias_by_id(alias.id).unwrap();
    assert_eq!(fetched.name, "gs");
    assert_eq!(fetched.command, "git status");
}

#[test]
fn get_alias_by_id_missing() {
    let db = setup();
    assert!(db.get_alias_by_id(99999).is_none());
}

#[test]
fn get_alias_by_name() {
    let mut db = setup();
    seed_machine(&mut db, "m1");
    db.add_alias("gs", "git status", "default", "m1", 5000).unwrap();
    let alias = db.get_alias_by_name("gs", "default").unwrap();
    assert_eq!(alias.command, "git status");
}

#[test]
fn get_alias_by_name_wrong_group() {
    let mut db = setup();
    seed_machine(&mut db, "m1");
    db.add_alias("gs", "git status", "default", "m1", 5000).unwrap();
    assert!(db.get_alias_by_name("gs", "work").is_none());
}

#[test]
fn update_alias_changes_command_and_version() {
    let mut db = setup();
    seed_machine(&mut db, "m1");
    let alias = db.add_alias("gs", "git status", "default", "m1", 5000).unwrap();
    let updated = db
        .update_alias(alias.id, "git status -sb", "m1", 6000)
        .unwrap()
        .unwrap();
    assert_eq!(updated.version, 2);
    assert_eq!(updated.command, "git status -sb");
}

#[test]
fn update_alias_nonexistent() {
    let mut db = setup();
    assert!(db.update_alias(99999, "cmd", "m1", 6000).unwrap().is_none());
}

#[test]
fn delete_alias_removes_and_logs() {
    let mut db = setup();
    seed_machine(&mut db, "m1");
    let alias = db.add_alias("gs", "git status", "default", "m1", 5000).unwrap();
    assert!(db.delete_alias(alias.id, "m1", 6000).unwrap());
    assert!(db.get_alias_by_id(alias.id).is_none());
    let history = db.get_history(10);
    assert!(history
        .iter()
        .any(|h| h.action == "delete" && h.alias_name == "gs"));
}

#[test]
fn delete_alias_nonexistent() {
    let mut db = setup();
    assert!(!db.delete_alias(99999, "m1", 6000).unwrap());
}

#[test]
fn delete_alias_by_name() {
    let mut db = setup();
    seed_machine(&mut db, "m1");
    db.add_alias("gs", "git status", "default", "m1", 5000).unwrap();
    assert!(db.delete_alias_by_name("gs", "default", "m1", 6000).unwrap());
    assert!(db.get_alias_by_name("gs", "default").is_none());
}

#[test]
fn get_aliases_by_groups_single() {
    let mut db = setup();
    seed_machine(&mut db, "m1");
    db.add_alias("gs", "git status", "default", "m1", 5000).unwrap();
    db.add_alias("dc", "docker-compose", "work", "m1", 5001).unwrap();
    let result = db.get_aliases_by_groups(&vec!["default".to_string()]);
    assert_eq!(result.len(), 1);
    assert_eq!(result[0].name, "gs");
}

#[test]
fn get_aliases_by_groups_multiple() {
    let mut db = setup();
    seed_machine(&mut db, "m1");
    db.add_alias("gs", "git status", "default", "m1", 5000).unwrap();
    db.add_alias("dc", "docker-compose", "work", "m1", 5001).unwrap();
    let result = db.get_aliases_by_groups(&vec!["default".to_string(), "work".to_string()]);
    assert_eq!(result.len(), 2);
}

#[test]
fn get_aliases_by_groups_empty() {
    let db = setup();
    let result = db.get_aliases_by_groups(&Vec::new());
    assert!(result.is_empty());
}

#[test]
fn create_conflict_returns_id() {
    let mut db = setup();
    let id = db
        .create_conflict("gs", "default", "git status", "git status -sb", "m1", 5000)
        .unwrap();
    assert!(id > 0);
}

#[test]
fn get_conflicts_unresolved_only() {
    let mut db = setup();
    let c1 = db
        .create_conflict("gs", "default", "cmd1", "cmd2", "m1", 5000)
        .unwrap();
    let _c2 = db
        .create_conflict("dc", "default", "cmd3", "cmd4", "m1", 5001)
        .unwrap();
    db.resolve_conflict(c1, "keep_local");
    let conflicts = db.get_conflicts_by_machine("m1");
    assert_eq!(conflicts.len(), 1);
    assert_eq!(conflicts[0].alias_name, "dc");
}

#[test]
fn get_conflicts_wrong_machine() {
    let mut db = setup();
    db.create_conflict("gs", "default", "cmd1", "cmd2", "m1", 5000)
        .unwrap();
    let conflicts = db.get_conflicts_by_machine("nonexistent");
    assert!(conflicts.is_empty());
}

#[test]
fn resolve_conflict() {
    let mut db = setup();
    let id = db
        .create_conflict("gs", "default", "cmd1", "cmd2", "m1", 5000)
        .unwrap();
    assert!(db.resolve_conflict(id, "keep_remote"));
    let conflicts = db.get_conflicts_by_machine("m1");
    assert!(conflicts.is_empty());
}

#[test]
fn history_respects_limit() {
    let mut db = setup();
    seed_machine(&mut db, "m1");
    for i in 0..5 {
        db.add_alias(&format!("a{i}"), &format!("cmd{i}"), "default", "m1", 5000 + i)
            .unwrap();
    }
    let history = db.get_history(3);
    assert_eq!(history.len(), 3);
}

#[test]
fn history_ordered_desc() {
    let mut db = setup();
    seed_machine(&mut db, "m1");
    db.add_alias("first", "cmd1", "default", "m1", 5000).unwrap();
    db.add_alias("second", "cmd2", "default", "m1", 6000).unwrap();
    let history = db.get_history(10);
    assert_eq!(history[0].alias_name, "second");
    assert_eq!(history[1].alias_name, "first");
}

fn entry(id: &str, command: &str, ts: i64) -> shell_sync::models::HistoryEntry {
    shell_sync::models::HistoryEntry {
        id: id.to_string(),
        command: command.to_string(),
        cwd: "/tmp".to_string(),
        exit_code: 0,
        duration_ms: 5,
        session_id: "s1".to_string(),
        machine_id: "m1".to_string(),
        hostname: "h1".to_string(),
        timestamp: ts,
        shell: "bash".to_string(),
        group_name: "default".to_string(),
    }
}

#[test]
fn insert_history_idempotent_on_id() {
    let mut db = setup();
    db.insert_history_entry(&entry("x", "ls", 1));
    db.insert_history_entry(&entry("x", "ls", 1));
    db.insert_history_entry(&entry("x", "different", 9));
    assert_eq!(db.get_history_count(), 1);
}

#[test]
fn insert_history_batch_counts_new_rows() {
    let mut db = setup();
    db.insert_history_entry(&entry("a", "ls", 1));
    let batch = vec![entry("a", "ls", 1), entry("b", "pwd", 2), entry("c", "cd", 3)];
    let added = db.insert_history_batch(&batch);
    assert_eq!(added, 2);
    assert_eq!(db.get_history_count(), 3);
}

#[test]
fn search_history_empty_query_most_recent_bounded() {
    let mut db = setup();
    for i in 0..10 {
        db.insert_history_entry(&entry(&format!("e{i}"), &format!("cmd{i}"), i as i64));
    }
    let found = db.search_history("", None, None, None, 3, 0);
    assert_eq!(found.len(), 3);
    assert_eq!(found[0].command, "cmd9");
    assert_eq!(found[1].command, "cmd8");
    assert_eq!(found[2].command, "cmd7");
}

#[test]
fn search_history_substring_and_filters() {
    let mut db = setup();
    db.insert_history_entry(&entry("a", "git status", 1));
    db.insert_history_entry(&entry("b", "git push", 2));
    db.insert_history_entry(&entry("c", "ls -la", 3));
    let found = db.search_history("git", None, None, None, 10, 0);
    assert_eq!(found.len(), 2);
    let found = db.search_history("git", None, Some("s1"), Some("/tmp"), 10, 0);
    assert_eq!(found.len(), 2);
    let found = db.search_history("git", None, Some("other"), None, 10, 0);
    assert_eq!(found.len(), 0);
}

#[test]
fn get_history_after_timestamp_ascending() {
    let mut db = setup();
    for i in 0..5 {
        db.insert_history_entry(&entry(&format!("e{i}"), &format!("cmd{i}"), i as i64));
    }
    let found = db.get_history_after_timestamp(1, "default", 2);
    assert_eq!(found.len(), 2);
    assert_eq!(found[0].timestamp, 2);
    assert_eq!(found[1].timestamp, 3);
}

#[test]
fn pending_outbox_fifo_and_removal() {
    let mut db = setup();
    db.add_history_pending(&entry("a", "ls", 1));
    db.add_history_pending(&entry("b", "pwd", 2));
    db.add_history_pending(&entry("a", "ls", 1));
    let got = db.get_pending_history(50);
    assert_eq!(got.len(), 2);
    assert_eq!(got[0].id, "a");
    assert_eq!(got[1].id, "b");
    db.remove_pending_history(&vec!["a".to_string()]);
    let got = db.get_pending_history(50);
    assert_eq!(got.len(), 1);
    assert_eq!(got[0].id, "b");
}
