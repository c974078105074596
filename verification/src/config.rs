use vstd::prelude::*;

verus! {

/// Server configuration as stored in its configuration file.
#[derive(Debug, Clone)]
pub struct ServerConfig {
    pub port: u16,
    pub db_path: String,
    pub git_repo_path: String,
    pub mdns_enabled: bool,
    pub web_ui_enabled: bool,
    pub git_sync_interval_secs: u64,
}

/// Client configuration as stored under the client state directory.
#[derive(Debug, Clone)]
pub struct ClientConfig {
    pub server_url: String,
    pub machine_id: String,
    pub auth_token: String,
    pub groups: Vec<String>,
    pub hostname: String,
}

fn default_port() -> (r: u16)
    ensures
        r == 8888,
{
    8888
}

fn default_db_path() -> (r: String)
    ensures
        r@ == "./data/sync.db"@,
{
    let r = String::from_str("./data/sync.db");
    r
}

fn default_git_repo_path() -> (r: String)
    ensures
        r@ == "./git-repo"@,
{
    let r = String::from_str("./git-repo");
    r
}

fn default_true() -> (r: bool)
    ensures
        r == true,
{
    true
}

fn default_git_sync_interval() -> (r: u64)
    ensures
        r == 300,
{
    300
}

impl Default for ServerConfig {
    /// The server's defaults: port 8888, a local database and export
    /// repository, discovery and the web UI on, export every five minutes.
    fn default() -> (r: ServerConfig)
        ensures
            r.port == 8888,
            r.db_path@ == "./data/sync.db"@,
            r.git_repo_path@ == "./git-repo"@,
            r.mdns_enabled == true,
            r.web_ui_enabled == true,
            r.git_sync_interval_secs == 300,
    {
        ServerConfig {
            port: default_port(),
            db_path: default_db_path(),
            git_repo_path: default_git_repo_path(),
            mdns_enabled: default_true(),
            web_ui_enabled: default_true(),
            git_sync_interval_secs: default_git_sync_interval(),
        }
    }
}

/// The client state directory under the user's home directory.
pub fn client_config_dir(home: &str) -> (r: String)
    ensures
        r@ == home@ + "/.shell-sync"@,
{
    let mut s = String::from_str(home);
    s.append("/.shell-sync");
    s
}

/// The client configuration file.
pub fn client_config_path(home: &str) -> (r: String)
    ensures
        r@ == home@ + "/.shell-sync"@ + "/config.toml"@,
{
    let mut s = client_config_dir(home);
    s.append("/config.toml");
    s
}

/// The alias output file for a shell with the given extension.
pub fn client_alias_path(home: &str, extension: &str) -> (r: String)
    ensures
        r@ == home@ + "/.shell-sync"@ + "/aliases."@ + extension@,
{
    let mut s = client_config_dir(home);
    s.append("/aliases.");
    s.append(extension);
    s
}

/// The daemon's PID file.
pub fn pid_file_path(home: &str) -> (r: String)
    ensures
        r@ == home@ + "/.shell-sync"@ + "/daemon.pid"@,
{
    let mut s = client_config_dir(home);
    s.append("/daemon.pid");
    s
}

/// The offline write-queue database.
pub fn offline_queue_db_path(home: &str) -> (r: String)
    ensures
        r@ == home@ + "/.shell-sync"@ + "/offline-queue.db"@,
{
    let mut s = client_config_dir(home);
    s.append("/offline-queue.db");
    s
}

/// The local history database.
pub fn history_db_path(home: &str) -> (r: String)
    ensures
        r@ == home@ + "/.shell-sync"@ + "/history.db"@,
{
    let mut s = client_config_dir(home);
    s.append("/history.db");
    s
}

/// The local stream socket the shell hooks write to.
pub fn socket_path(home: &str) -> (r: String)
    ensures
        r@ == home@ + "/.shell-sync"@ + "/sock"@,
{
    let mut s = client_config_dir(home);
    s.append("/sock");
    s
}

/// The directory holding the encryption keys.
pub fn keys_dir_path(home: &str) -> (r: String)
    ensures
        r@ == home@ + "/.shell-sync"@ + "/keys"@,
{
    let mut s = client_config_dir(home);
    s.append("/keys");
    s
}

/// The directory holding the generated shell hooks.
pub fn hooks_dir_path(home: &str) -> (r: String)
    ensures
        r@ == home@ + "/.shell-sync"@ + "/hooks"@,
{
    let mut s = client_config_dir(home);
    s.append("/hooks");
    s
}

} // verus!
