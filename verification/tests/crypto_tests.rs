use shell_sync::crypto::{
    decrypt_alias, decrypt_field, decrypt_history_entry, decrypt_string, encrypt_alias,
    encrypt_field, encrypt_history_entry, encrypt_string, random_key32, KeyStore,
};
use shell_sync::models::{Alias, HistoryEntry};

#[test]
fn encrypt_decrypt_field_roundtrip() {
    let key = random_key32();
    let plaintext = b"hello world, this is a secret message";

    let (ct, nonce) = encrypt_field(&key, plaintext).unwrap();
    let decrypted = decrypt_field(&key, &ct, &nonce).unwrap();
    assert_eq!(decrypted, plaintext);
}

#[test]
fn encrypt_decrypt_string_roundtrip() {
    let key = random_key32();
    let text = "git status --short";

    let (b64_ct, b64_nonce) = encrypt_string(&key, text).unwrap();
    let decrypted = decrypt_string(&key, &b64_ct, &b64_nonce).unwrap();
    assert_eq!(decrypted, text);
}

#[test]
fn decrypt_with_wrong_key_fails() {
    let key1 = random_key32();
    let key2 = random_key32();

    let (ct, nonce) = encrypt_field(&key1, b"secret").unwrap();
    let result = decrypt_field(&key2, &ct, &nonce);
    assert!(result.is_err());
}

#[test]
fn group_key_create_and_has() {
    let mut mgr = KeyStore::generate();
    mgr.create_group_key("work");
    assert!(mgr.has_group_key("work"));
    assert!(!mgr.has_group_key("personal"));
}

#[test]
fn wrap_unwrap_group_key() {
    let mut mgr_a = KeyStore::generate();
    mgr_a.create_group_key("team");

    let mut mgr_b = KeyStore::generate();
    assert!(!mgr_b.has_group_key("team"));

    let wrapped = mgr_a
        .wrap_group_key("team", &mgr_b.public_key_b64())
        .unwrap();

    mgr_b
        .unwrap_group_key("team", &wrapped, &mgr_a.public_key_b64())
        .unwrap();

    assert!(mgr_b.has_group_key("team"));
    assert_eq!(
        mgr_a.get_group_key("team").unwrap(),
        mgr_b.get_group_key("team").unwrap()
    );
}

#[test]
fn unwrap_rejects_garbled_key() {
    let mut mgr_a = KeyStore::generate();
    mgr_a.create_group_key("team");
    let mut mgr_b = KeyStore::generate();
    let mut wrapped = mgr_a
        .wrap_group_key("team", &mgr_b.public_key_b64())
        .unwrap();
    wrapped.truncate(4);
    assert!(mgr_b
        .unwrap_group_key("team", &wrapped, &mgr_a.public_key_b64())
        .is_err());
}

#[test]
fn encrypt_decrypt_alias_roundtrip() {
    let key = random_key32();

    let alias = Alias {
        id: 42,
        name: "gs".into(),
        command: "git status --short".into(),
        group_name: "work".into(),
        created_by_machine: "machine-1".into(),
        created_at: 1000,
        updated_at: 2000,
        version: 3,
    };

    let encrypted = encrypt_alias(&key, &alias).unwrap();

    assert_ne!(encrypted.command, alias.command);
    assert_eq!(encrypted.name, alias.name);

    let decrypted = decrypt_alias(&key, &encrypted).unwrap();
    assert_eq!(decrypted.command, alias.command);
    assert_eq!(decrypted.name, alias.name);
    assert_eq!(decrypted.id, alias.id);
}

#[test]
fn public_key_is_stable_for_a_secret() {
    let mgr = KeyStore::generate();
    let pk1 = mgr.public_key_b64();
    let pk2 = mgr.public_key_b64();
    assert_eq!(pk1, pk2);
    assert!(!pk1.is_empty());
}

#[test]
fn encrypt_decrypt_history_entry_roundtrip() {
    let key = random_key32();

    let entry = HistoryEntry {
        id: "abc-123".into(),
        command: "docker compose up -d".into(),
        cwd: "/home/user/project".into(),
        exit_code: 0,
        duration_ms: 1234,
        session_id: "sess-1".into(),
        machine_id: "machine-1".into(),
        hostname: "my-laptop".into(),
        timestamp: 1700000000,
        shell: "zsh".into(),
        group_name: "default".into(),
    };

    let encrypted = encrypt_history_entry(&key, &entry).unwrap();

    assert_ne!(encrypted.command, entry.command);
    assert_ne!(encrypted.cwd, entry.cwd);
    assert_ne!(encrypted.hostname, entry.hostname);

    assert_eq!(encrypted.id, entry.id);
    assert_eq!(encrypted.session_id, entry.session_id);
    assert_eq!(encrypted.machine_id, entry.machine_id);
    assert_eq!(encrypted.timestamp, entry.timestamp);
    assert_eq!(encrypted.shell, entry.shell);
    assert_eq!(encrypted.group_name, entry.group_name);

    let decrypted = decrypt_history_entry(&key, &encrypted).unwrap();
    assert_eq!(decrypted.command, entry.command);
    assert_eq!(decrypted.cwd, entry.cwd);
    assert_eq!(decrypted.exit_code, entry.exit_code);
    assert_eq!(decrypted.duration_ms, entry.duration_ms);
    assert_eq!(decrypted.hostname, entry.hostname);
}

#[test]
fn history_entry_negative_exit_code_roundtrip() {
    let key = random_key32();
    let entry = HistoryEntry {
        id: "x".into(),
        command: "false".into(),
        cwd: "/".into(),
        exit_code: -1,
        duration_ms: 0,
        session_id: "s".into(),
        machine_id: "m".into(),
        hostname: "h".into(),
        timestamp: 1,
        shell: "bash".into(),
        group_name: "default".into(),
    };
    let enc = encrypt_history_entry(&key, &entry).unwrap();
    let dec = decrypt_history_entry(&key, &enc).unwrap();
    assert_eq!(dec.exit_code, -1);
    assert_eq!(dec.duration_ms, 0);
}
