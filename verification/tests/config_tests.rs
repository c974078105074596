use shell_sync::config::{client_alias_path, client_config_path, ServerConfig};

#[test]
fn server_config_defaults() {
    let cfg = ServerConfig::default();
    assert_eq!(cfg.port, 8888);
    assert!(cfg.mdns_enabled);
    assert!(cfg.web_ui_enabled);
    assert_eq!(cfg.git_sync_interval_secs, 300);
}

#[test]
fn client_paths_under_shell_sync_dir() {
    let config_path = client_config_path("/home/user");
    assert!(config_path.ends_with(".shell-sync/config.toml"));

    let alias_path = client_alias_path("/home/user", "sh");
    assert!(alias_path.ends_with("aliases.sh"));
}

#[test]
fn paths_start_with_home() {
    assert_eq!(
        shell_sync::config::socket_path("/home/u"),
        "/home/u/.shell-sync/sock"
    );
    assert_eq!(
        shell_sync::config::pid_file_path("/home/u"),
        "/home/u/.shell-sync/daemon.pid"
    );
    assert_eq!(
        shell_sync::config::history_db_path("/home/u"),
        "/home/u/.shell-sync/history.db"
    );
    assert_eq!(
        shell_sync::config::offline_queue_db_path("/home/u"),
        "/home/u/.shell-sync/offline-queue.db"
    );
    assert_eq!(
        shell_sync::config::keys_dir_path("/home/u"),
        "/home/u/.shell-sync/keys"
    );
    assert_eq!(
        shell_sync::config::hooks_dir_path("/home/u"),
        "/home/u/.shell-sync/hooks"
    );
}
