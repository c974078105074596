use vstd::prelude::*;

verus! {

/// A shell alias that can be synced across machines.
#[derive(Debug, Clone)]
pub struct Alias {
    pub id: i64,
    pub name: String,
    pub command: String,
    pub group_name: String,
    pub created_by_machine: String,
    pub created_at: i64,
    pub updated_at: i64,
    pub version: i64,
}

/// A registered machine in the sync network.
#[derive(Debug, Clone)]
pub struct Machine {
    pub id: i64,
    pub machine_id: String,
    pub hostname: String,
    pub groups: Vec<String>,
    pub os_type: Option<String>,
    pub auth_token: String,
    pub last_seen: i64,
    pub created_at: i64,
    pub public_key: Option<String>,
}

/// A conflict between local and remote alias versions.
#[derive(Debug, Clone)]
pub struct Conflict {
    pub id: i64,
    pub alias_name: String,
    pub group_name: String,
    pub local_command: String,
    pub remote_command: String,
    pub machine_id: String,
    pub created_at: i64,
    pub resolved: bool,
    pub resolution: Option<String>,
}

/// A record of a sync action in the audit log.
#[derive(Debug, Clone)]
pub struct SyncHistoryEntry {
    pub id: i64,
    pub timestamp: i64,
    pub machine_id: String,
    pub action: String,
    pub alias_name: String,
    pub alias_command: Option<String>,
    pub group_name: Option<String>,
}

/// Response returned when registering a new machine.
#[derive(Debug, Clone)]
pub struct RegisterResponse {
    pub machine_id: String,
    pub auth_token: String,
    pub message: String,
}

/// Request body for machine registration.
#[derive(Debug, Clone)]
pub struct RegisterRequest {
    pub hostname: String,
    pub groups: Vec<String>,
    pub os_type: Option<String>,
    pub public_key: Option<String>,
}

/// Request body for adding an alias.
#[derive(Debug, Clone)]
pub struct AddAliasRequest {
    pub name: String,
    pub command: String,
    pub group: String,
}

/// Request body for updating an alias.
#[derive(Debug, Clone)]
pub struct UpdateAliasRequest {
    pub command: String,
}

/// Request body for resolving a conflict.
#[derive(Debug, Clone)]
pub struct ResolveConflictRequest {
    pub conflict_id: i64,
    pub resolution: String,
}

/// Request body for bulk import.
#[derive(Debug, Clone)]
pub struct ImportRequest {
    pub aliases: Vec<ImportAlias>,
    pub group: String,
}

/// One alias inside a bulk import request.
#[derive(Debug, Clone)]
pub struct ImportAlias {
    pub name: String,
    pub command: String,
}

/// A shell history entry that can be synced across machines.
#[derive(Debug, Clone)]
pub struct HistoryEntry {
    pub id: String,
    pub command: String,
    pub cwd: String,
    pub exit_code: i32,
    pub duration_ms: i64,
    pub session_id: String,
    pub machine_id: String,
    pub hostname: String,
    pub timestamp: i64,
    pub shell: String,
    pub group_name: String,
}

/// Payload sent from shell hooks over the local socket.
#[derive(Debug, Clone)]
pub struct HistoryHookPayload {
    pub command: String,
    pub cwd: String,
    pub exit_code: i32,
    pub duration_ms: i64,
    pub session_id: String,
    pub shell: String,
}

/// Encrypted version of a history entry for wire transmission.
/// Sensitive fields are base64 ciphertext; routing metadata stays plaintext.
#[derive(Debug, Clone)]
pub struct EncryptedHistoryEntry {
    pub id: String,
    pub command: String,
    pub cwd: String,
    pub exit_code: String,
    pub duration_ms: String,
    pub session_id: String,
    pub machine_id: String,
    pub hostname: String,
    pub timestamp: i64,
    pub shell: String,
    pub group_name: String,
    pub nonces: String,
}

/// Encrypted version of an alias for wire transmission.
/// Only the command is ciphertext; the name stays plaintext for the shell file.
#[derive(Debug, Clone)]
pub struct EncryptedAlias {
    pub id: i64,
    pub name: String,
    pub command: String,
    pub group_name: String,
    pub created_by_machine: String,
    pub created_at: i64,
    pub updated_at: i64,
    pub version: i64,
    pub nonce: String,
}

/// The group an alias request falls into when the caller names none.
pub fn default_group() -> (r: String)
    ensures
        r@ == "default"@,
{
    let r = String::from_str("default");
    r
}

/// Two aliases agree on every field, comparing strings by content.
pub open spec fn alias_like(a: Alias, b: Alias) -> bool {
    &&& a.id == b.id
    &&& a.name@ == b.name@
    &&& a.command@ == b.command@
    &&& a.group_name@ == b.group_name@
    &&& a.created_by_machine@ == b.created_by_machine@
    &&& a.created_at == b.created_at
    &&& a.updated_at == b.updated_at
    &&& a.version == b.version
}

/// Two optional strings agree by content.
pub open spec fn opt_str_like(a: Option<String>, b: Option<String>) -> bool {
    match (a, b) {
        (Option::None, Option::None) => true,
        (Option::Some(x), Option::Some(y)) => x@ == y@,
        _ => false,
    }
}

/// Two string vectors agree pointwise by content.
pub open spec fn strings_like(a: Seq<String>, b: Seq<String>) -> bool {
    a.len() == b.len() && forall|i: int| 0 <= i < a.len() ==> a[i]@ == b[i]@
}

/// Two machines agree on every field, comparing strings by content.
pub open spec fn machine_like(a: Machine, b: Machine) -> bool {
    &&& a.id == b.id
    &&& a.machine_id@ == b.machine_id@
    &&& a.hostname@ == b.hostname@
    &&& strings_like(a.groups@, b.groups@)
    &&& opt_str_like(a.os_type, b.os_type)
    &&& a.auth_token@ == b.auth_token@
    &&& a.last_seen == b.last_seen
    &&& a.created_at == b.created_at
    &&& opt_str_like(a.public_key, b.public_key)
}

/// Two conflicts agree on every field, comparing strings by content.
pub open spec fn conflict_like(a: Conflict, b: Conflict) -> bool {
    &&& a.id == b.id
    &&& a.alias_name@ == b.alias_name@
    &&& a.group_name@ == b.group_name@
    &&& a.local_command@ == b.local_command@
    &&& a.remote_command@ == b.remote_command@
    &&& a.machine_id@ == b.machine_id@
    &&& a.created_at == b.created_at
    &&& a.resolved == b.resolved
    &&& opt_str_like(a.resolution, b.resolution)
}

/// Two audit entries agree on every field, comparing strings by content.
pub open spec fn sync_entry_like(a: SyncHistoryEntry, b: SyncHistoryEntry) -> bool {
    &&& a.id == b.id
    &&& a.timestamp == b.timestamp
    &&& a.machine_id@ == b.machine_id@
    &&& a.action@ == b.action@
    &&& a.alias_name@ == b.alias_name@
    &&& opt_str_like(a.alias_command, b.alias_command)
    &&& opt_str_like(a.group_name, b.group_name)
}

/// Copies an optional string by content.
pub fn clone_opt_string(a: &Option<String>) -> (r: Option<String>)
    ensures
        opt_str_like(r, *a),
{
    match a {
        Option::Some(s) => Option::Some(s.clone()),
        Option::None => Option::None,
    }
}

/// Copies a vector of strings by content.
pub fn clone_strings(a: &Vec<String>) -> (r: Vec<String>)
    ensures
        strings_like(r@, a@),
{
    let mut r: Vec<String> = Vec::new();
    let mut i: usize = 0;
    while i < a.len()
        invariant
            i <= a@.len(),
            r@.len() == i,
            forall|j: int| 0 <= j < i ==> r@[j]@ == a@[j]@,
        decreases a@.len() - i,
    {
        r.push(a[i].clone());
        i += 1;
    }
    r
}

/// Copies an alias field by field.
pub fn clone_alias(a: &Alias) -> (r: Alias)
    ensures
        alias_like(r, *a),
{
    Alias {
        id: a.id,
        name: a.name.clone(),
        command: a.command.clone(),
        group_name: a.group_name.clone(),
        created_by_machine: a.created_by_machine.clone(),
        created_at: a.created_at,
        updated_at: a.updated_at,
        version: a.version,
    }
}

/// Copies a machine field by field.
pub fn clone_machine(a: &Machine) -> (r: Machine)
    ensures
        machine_like(r, *a),
{
    Machine {
        id: a.id,
        machine_id: a.machine_id.clone(),
        hostname: a.hostname.clone(),
        groups: clone_strings(&a.groups),
        os_type: clone_opt_string(&a.os_type),
        auth_token: a.auth_token.clone(),
        last_seen: a.last_seen,
        created_at: a.created_at,
        public_key: clone_opt_string(&a.public_key),
    }
}

/// Copies a conflict field by field.
pub fn clone_conflict(a: &Conflict) -> (r: Conflict)
    ensures
        conflict_like(r, *a),
{
    Conflict {
        id: a.id,
        alias_name: a.alias_name.clone(),
        group_name: a.group_name.clone(),
        local_command: a.local_command.clone(),
        remote_command: a.remote_command.clone(),
        machine_id: a.machine_id.clone(),
        created_at: a.created_at,
        resolved: a.resolved,
        resolution: clone_opt_string(&a.resolution),
    }
}

/// Copies an audit entry field by field.
pub fn clone_sync_entry(a: &SyncHistoryEntry) -> (r: SyncHistoryEntry)
    ensures
        sync_entry_like(r, *a),
{
    SyncHistoryEntry {
        id: a.id,
        timestamp: a.timestamp,
        machine_id: a.machine_id.clone(),
        action: a.action.clone(),
        alias_name: a.alias_name.clone(),
        alias_command: clone_opt_string(&a.alias_command),
        group_name: clone_opt_string(&a.group_name),
    }
}

/// Two encrypted history entries agree on every field, comparing strings
/// by content.
pub open spec fn enc_history_like(a: EncryptedHistoryEntry, b: EncryptedHistoryEntry) -> bool {
    &&& a.id@ == b.id@
    &&& a.command@ == b.command@
    &&& a.cwd@ == b.cwd@
    &&& a.exit_code@ == b.exit_code@
    &&& a.duration_ms@ == b.duration_ms@
    &&& a.session_id@ == b.session_id@
    &&& a.machine_id@ == b.machine_id@
    &&& a.hostname@ == b.hostname@
    &&& a.timestamp == b.timestamp
    &&& a.shell@ == b.shell@
    &&& a.group_name@ == b.group_name@
    &&& a.nonces@ == b.nonces@
}

/// Copies an encrypted history entry field by field.
pub fn clone_encrypted_history_entry(a: &EncryptedHistoryEntry) -> (r: EncryptedHistoryEntry)
    ensures
        enc_history_like(r, *a),
{
    EncryptedHistoryEntry {
        id: a.id.clone(),
        command: a.command.clone(),
        cwd: a.cwd.clone(),
        exit_code: a.exit_code.clone(),
        duration_ms: a.duration_ms.clone(),
        session_id: a.session_id.clone(),
        machine_id: a.machine_id.clone(),
        hostname: a.hostname.clone(),
        timestamp: a.timestamp,
        shell: a.shell.clone(),
        group_name: a.group_name.clone(),
        nonces: a.nonces.clone(),
    }
}

/// Copies a history entry field by field.
pub fn clone_history_entry(a: &HistoryEntry) -> (r: HistoryEntry)
    ensures
        history_like(r, *a),
{
    HistoryEntry {
        id: a.id.clone(),
        command: a.command.clone(),
        cwd: a.cwd.clone(),
        exit_code: a.exit_code,
        duration_ms: a.duration_ms,
        session_id: a.session_id.clone(),
        machine_id: a.machine_id.clone(),
        hostname: a.hostname.clone(),
        timestamp: a.timestamp,
        shell: a.shell.clone(),
        group_name: a.group_name.clone(),
    }
}

/// Two history entries agree on every field, comparing strings by content.
pub open spec fn history_like(a: HistoryEntry, b: HistoryEntry) -> bool {
    &&& a.id@ == b.id@
    &&& a.command@ == b.command@
    &&& a.cwd@ == b.cwd@
    &&& a.exit_code == b.exit_code
    &&& a.duration_ms == b.duration_ms
    &&& a.session_id@ == b.session_id@
    &&& a.machine_id@ == b.machine_id@
    &&& a.hostname@ == b.hostname@
    &&& a.timestamp == b.timestamp
    &&& a.shell@ == b.shell@
    &&& a.group_name@ == b.group_name@
}

} // verus!
