use vstd::prelude::*;

use crate::jsontext::{json_quoted, push_i32, push_i64, push_lit, push_quoted};
use crate::models::{Alias, EncryptedHistoryEntry, HistoryEntry, HistoryHookPayload};
use crate::strutil::{chars_of, chars_to_string, dec_i64, str_eq};

verus! {

/// Frames a daemon sends to the service over the event channel.
#[derive(Debug, Clone)]
pub enum ClientMessage {
    Auth { token: String },
    Ping,
    HistoryBatch { entries: Vec<HistoryEntry> },
    HistoryBatchEncrypted { entries: Vec<EncryptedHistoryEntry> },
    HistoryQuery { after_timestamp: i64, group_name: String, limit: i64 },
    KeyRequest { group_name: String, public_key: String },
    KeyResponse { group_name: String, target_machine_id: String, wrapped_key: String },
}

/// Payload of a successful channel authentication.
#[derive(Debug, Clone)]
pub struct AuthSuccessData {
    pub machine_id: String,
    pub groups: Vec<String>,
}

/// Payload of a refused channel authentication.
#[derive(Debug, Clone)]
pub struct AuthFailedData {
    pub error: String,
}

/// Payload of a pong reply.
#[derive(Debug, Clone)]
pub struct PongData {
    pub timestamp: i64,
}

/// Payload of an alias deletion event.
#[derive(Debug, Clone)]
pub struct AliasDeletedData {
    pub id: i64,
    pub name: String,
}

/// Payload of a reconcile hint.
#[derive(Debug, Clone)]
pub struct SyncRequiredData {
    pub message: String,
}

/// Payload of a history fan-out carrying plaintext entries.
#[derive(Debug, Clone)]
pub struct HistorySyncData {
    pub entries: Vec<HistoryEntry>,
    pub source_machine_id: String,
}

/// Payload of a history fan-out carrying encrypted entries.
#[derive(Debug, Clone)]
pub struct HistorySyncEncryptedData {
    pub entries: Vec<EncryptedHistoryEntry>,
    pub source_machine_id: String,
}

/// Payload of one page of history answering a cursor query.
#[derive(Debug, Clone)]
pub struct HistoryPageData {
    pub entries: Vec<HistoryEntry>,
    pub has_more: bool,
}

/// Payload of a relayed group-key request.
#[derive(Debug, Clone)]
pub struct KeyRequestData {
    pub group_name: String,
    pub requester_machine_id: String,
    pub public_key: String,
}

/// Payload of a relayed group-key response.
#[derive(Debug, Clone)]
pub struct KeyResponseData {
    pub group_name: String,
    pub wrapped_key: String,
    pub sender_public_key: String,
}

/// Frames the service sends to a daemon over the event channel.
#[derive(Debug, Clone)]
pub enum ServerEvent {
    AuthSuccess { data: AuthSuccessData },
    AuthFailed { data: AuthFailedData },
    AliasAdded { data: Alias },
    AliasUpdated { data: Alias },
    AliasDeleted { data: AliasDeletedData },
    SyncRequired { data: SyncRequiredData },
    Pong { data: PongData },
    HistorySync { data: HistorySyncData },
    HistorySyncEncrypted { data: HistorySyncEncryptedData },
    HistoryPage { data: HistoryPageData },
    KeyRequestEvent { data: KeyRequestData },
    KeyResponseEvent { data: KeyResponseData },
}


/// The canonical wire text of one history entry.
pub open spec fn enc_entry(e: HistoryEntry) -> Seq<char> {
    "{\"id\":"@ + json_quoted(e.id@) + ",\"command\":"@ + json_quoted(e.command@)
        + ",\"cwd\":"@ + json_quoted(e.cwd@) + ",\"exit_code\":"@ + dec_i64(e.exit_code as int)
        + ",\"duration_ms\":"@ + dec_i64(e.duration_ms as int) + ",\"session_id\":"@
        + json_quoted(e.session_id@) + ",\"machine_id\":"@ + json_quoted(e.machine_id@)
        + ",\"hostname\":"@ + json_quoted(e.hostname@) + ",\"timestamp\":"@ + dec_i64(
        e.timestamp as int,
    ) + ",\"shell\":"@ + json_quoted(e.shell@) + ",\"group_name\":"@ + json_quoted(
        e.group_name@,
    ) + "}"@
}

/// The canonical wire text of one encrypted history entry.
pub open spec fn enc_enc_entry(e: EncryptedHistoryEntry) -> Seq<char> {
    "{\"id\":"@ + json_quoted(e.id@) + ",\"command\":"@ + json_quoted(e.command@)
        + ",\"cwd\":"@ + json_quoted(e.cwd@) + ",\"exit_code\":"@ + json_quoted(e.exit_code@)
        + ",\"duration_ms\":"@ + json_quoted(e.duration_ms@) + ",\"session_id\":"@
        + json_quoted(e.session_id@) + ",\"machine_id\":"@ + json_quoted(e.machine_id@)
        + ",\"hostname\":"@ + json_quoted(e.hostname@) + ",\"timestamp\":"@ + dec_i64(
        e.timestamp as int,
    ) + ",\"shell\":"@ + json_quoted(e.shell@) + ",\"group_name\":"@ + json_quoted(
        e.group_name@,
    ) + ",\"nonces\":"@ + json_quoted(e.nonces@) + "}"@
}

/// The canonical wire text of one alias.
pub open spec fn enc_alias(a: Alias) -> Seq<char> {
    "{\"id\":"@ + dec_i64(a.id as int) + ",\"name\":"@ + json_quoted(a.name@)
        + ",\"command\":"@ + json_quoted(a.command@) + ",\"group_name\":"@ + json_quoted(
        a.group_name@,
    ) + ",\"created_by_machine\":"@ + json_quoted(a.created_by_machine@) + ",\"created_at\":"@
        + dec_i64(a.created_at as int) + ",\"updated_at\":"@ + dec_i64(a.updated_at as int)
        + ",\"version\":"@ + dec_i64(a.version as int) + "}"@
}

/// Comma-joined history entries.
pub open spec fn enc_entry_list(es: Seq<HistoryEntry>) -> Seq<char>
    decreases es.len(),
{
    if es.len() == 0 {
        Seq::empty()
    } else if es.len() == 1 {
        enc_entry(es[0])
    } else {
        enc_entry_list(es.drop_last()) + ","@ + enc_entry(es.last())
    }
}

/// Comma-joined encrypted history entries.
pub open spec fn enc_enc_entry_list(es: Seq<EncryptedHistoryEntry>) -> Seq<char>
    decreases es.len(),
{
    if es.len() == 0 {
        Seq::empty()
    } else if es.len() == 1 {
        enc_enc_entry(es[0])
    } else {
        enc_enc_entry_list(es.drop_last()) + ","@ + enc_enc_entry(es.last())
    }
}

/// Comma-joined string literals.
pub open spec fn enc_string_list(gs: Seq<String>) -> Seq<char>
    decreases gs.len(),
{
    if gs.len() == 0 {
        Seq::empty()
    } else if gs.len() == 1 {
        json_quoted(gs[0]@)
    } else {
        enc_string_list(gs.drop_last()) + ","@ + json_quoted(gs.last()@)
    }
}

/// The canonical wire text of a client frame, tagged by `type`.
pub open spec fn enc_client(m: ClientMessage) -> Seq<char> {
    match m {
        ClientMessage::Auth { token } => "{\"type\":\"auth\",\"token\":"@ + json_quoted(
            token@,
        ) + "}"@,
        ClientMessage::Ping => "{\"type\":\"ping\"}"@,
        ClientMessage::HistoryBatch { entries } => "{\"type\":\"history_batch\",\"entries\":["@
            + enc_entry_list(entries@) + "]}"@,
        ClientMessage::HistoryBatchEncrypted { entries } => {
            "{\"type\":\"history_batch\",\"encrypted\":true,\"entries\":["@
                + enc_enc_entry_list(entries@) + "]}"@
        },
        ClientMessage::HistoryQuery { after_timestamp, group_name, limit } => {
            "{\"type\":\"history_query\",\"after_timestamp\":"@ + dec_i64(
                after_timestamp as int,
            ) + ",\"group_name\":"@ + json_quoted(group_name@) + ",\"limit\":"@ + dec_i64(
                limit as int,
            ) + "}"@
        },
        ClientMessage::KeyRequest { group_name, public_key } => {
            "{\"type\":\"key_request\",\"group_name\":"@ + json_quoted(group_name@)
                + ",\"public_key\":"@ + json_quoted(public_key@) + "}"@
        },
        ClientMessage::KeyResponse { group_name, target_machine_id, wrapped_key } => {
            "{\"type\":\"key_response\",\"group_name\":"@ + json_quoted(group_name@)
                + ",\"target_machine_id\":"@ + json_quoted(target_machine_id@)
                + ",\"wrapped_key\":"@ + json_quoted(wrapped_key@) + "}"@
        },
    }
}

/// The canonical wire text of a server frame, tagged by `event`.
pub open spec fn enc_server(m: ServerEvent) -> Seq<char> {
    match m {
        ServerEvent::AuthSuccess { data } => {
            "{\"event\":\"auth_success\",\"data\":{\"machine_id\":"@ + json_quoted(
                data.machine_id@,
            ) + ",\"groups\":["@ + enc_string_list(data.groups@) + "]}}"@
        },
        ServerEvent::AuthFailed { data } => {
            "{\"event\":\"auth_failed\",\"data\":{\"error\":"@ + json_quoted(data.error@)
                + "}}"@
        },
        ServerEvent::AliasAdded { data } => "{\"event\":\"alias_added\",\"data\":"@
            + enc_alias(data) + "}"@,
        ServerEvent::AliasUpdated { data } => "{\"event\":\"alias_updated\",\"data\":"@
            + enc_alias(data) + "}"@,
        ServerEvent::AliasDeleted { data } => {
            "{\"event\":\"alias_deleted\",\"data\":{\"id\":"@ + dec_i64(data.id as int)
                + ",\"name\":"@ + json_quoted(data.name@) + "}}"@
        },
        ServerEvent::SyncRequired { data } => {
            "{\"event\":\"sync_required\",\"data\":{\"message\":"@ + json_quoted(
                data.message@,
            ) + "}}"@
        },
        ServerEvent::Pong { data } => {
            "{\"event\":\"pong\",\"data\":{\"timestamp\":"@ + dec_i64(data.timestamp as int)
                + "}}"@
        },
        ServerEvent::HistorySync { data } => {
            "{\"event\":\"history_sync\",\"data\":{\"entries\":["@ + enc_entry_list(
                data.entries@,
            ) + "],\"source_machine_id\":"@ + json_quoted(data.source_machine_id@) + "}}"@
        },
        ServerEvent::HistorySyncEncrypted { data } => {
            "{\"event\":\"history_sync\",\"data\":{\"encrypted\":true,\"entries\":["@
                + enc_enc_entry_list(data.entries@) + "],\"source_machine_id\":"@ + json_quoted(
                data.source_machine_id@,
            ) + "}}"@
        },
        ServerEvent::HistoryPage { data } => {
            "{\"event\":\"history_page\",\"data\":{\"entries\":["@ + enc_entry_list(
                data.entries@,
            ) + "],\"has_more\":"@ + (if data.has_more {
                "true"@
            } else {
                "false"@
            }) + "}}"@
        },
        ServerEvent::KeyRequestEvent { data } => {
            "{\"event\":\"key_request\",\"data\":{\"group_name\":"@ + json_quoted(
                data.group_name@,
            ) + ",\"requester_machine_id\":"@ + json_quoted(data.requester_machine_id@)
                + ",\"public_key\":"@ + json_quoted(data.public_key@) + "}}"@
        },
        ServerEvent::KeyResponseEvent { data } => {
            "{\"event\":\"key_response\",\"data\":{\"group_name\":"@ + json_quoted(
                data.group_name@,
            ) + ",\"wrapped_key\":"@ + json_quoted(data.wrapped_key@)
                + ",\"sender_public_key\":"@ + json_quoted(data.sender_public_key@) + "}}"@
        },
    }
}

/// The canonical wire text of one hook-socket line, as the shell hooks
/// emit it.
pub open spec fn enc_hook_payload(p: HistoryHookPayload) -> Seq<char> {
    "{\"command\":"@ + json_quoted(p.command@) + ",\"cwd\":"@ + json_quoted(p.cwd@)
        + ",\"exit_code\":"@ + dec_i64(p.exit_code as int) + ",\"duration_ms\":"@ + dec_i64(
        p.duration_ms as int,
    ) + ",\"session_id\":"@ + json_quoted(p.session_id@) + ",\"shell\":"@ + json_quoted(
        p.shell@,
    ) + "}"@
}

#[verifier::rlimit(100)]
#[verifier::spinoff_prover]
fn push_entry(out: &mut Vec<char>, e: &HistoryEntry)
    ensures
        final(out)@ == old(out)@ + enc_entry(*e),
{
    push_lit(out, "{\"id\":");
    push_quoted(out, e.id.as_str());
    push_lit(out, ",\"command\":");
    push_quoted(out, e.command.as_str());
    push_lit(out, ",\"cwd\":");
    push_quoted(out, e.cwd.as_str());
    push_lit(out, ",\"exit_code\":");
    push_i32(out, e.exit_code);
    push_lit(out, ",\"duration_ms\":");
    push_i64(out, e.duration_ms);
    push_lit(out, ",\"session_id\":");
    push_quoted(out, e.session_id.as_str());
    push_lit(out, ",\"machine_id\":");
    push_quoted(out, e.machine_id.as_str());
    push_lit(out, ",\"hostname\":");
    push_quoted(out, e.hostname.as_str());
    push_lit(out, ",\"timestamp\":");
    push_i64(out, e.timestamp);
    push_lit(out, ",\"shell\":");
    push_quoted(out, e.shell.as_str());
    push_lit(out, ",\"group_name\":");
    push_quoted(out, e.group_name.as_str());
    push_lit(out, "}");
    proof {
        assert(out@ =~= old(out)@ + enc_entry(*e));
    }
}

#[verifier::rlimit(100)]
#[verifier::spinoff_prover]
fn push_enc_entry(out: &mut Vec<char>, e: &EncryptedHistoryEntry)
    ensures
        final(out)@ == old(out)@ + enc_enc_entry(*e),
{
    push_lit(out, "{\"id\":");
    push_quoted(out, e.id.as_str());
    push_lit(out, ",\"command\":");
    push_quoted(out, e.command.as_str());
    push_lit(out, ",\"cwd\":");
    push_quoted(out, e.cwd.as_str());
    push_lit(out, ",\"exit_code\":");
    push_quoted(out, e.exit_code.as_str());
    push_lit(out, ",\"duration_ms\":");
    push_quoted(out, e.duration_ms.as_str());
    push_lit(out, ",\"session_id\":");
    push_quoted(out, e.session_id.as_str());
    push_lit(out, ",\"machine_id\":");
    push_quoted(out, e.machine_id.as_str());
    push_lit(out, ",\"hostname\":");
    push_quoted(out, e.hostname.as_str());
    push_lit(out, ",\"timestamp\":");
    push_i64(out, e.timestamp);
    push_lit(out, ",\"shell\":");
    push_quoted(out, e.shell.as_str());
    push_lit(out, ",\"group_name\":");
    push_quoted(out, e.group_name.as_str());
    push_lit(out, ",\"nonces\":");
    push_quoted(out, e.nonces.as_str());
    push_lit(out, "}");
    proof {
        assert(out@ =~= old(out)@ + enc_enc_entry(*e));
    }
}

#[verifier::rlimit(100)]
#[verifier::spinoff_prover]
fn push_alias(out: &mut Vec<char>, a: &Alias)
    ensures
        final(out)@ == old(out)@ + enc_alias(*a),
{
    push_lit(out, "{\"id\":");
    push_i64(out, a.id);
    push_lit(out, ",\"name\":");
    push_quoted(out, a.name.as_str());
    push_lit(out, ",\"command\":");
    push_quoted(out, a.command.as_str());
    push_lit(out, ",\"group_name\":");
    push_quoted(out, a.group_name.as_str());
    push_lit(out, ",\"created_by_machine\":");
    push_quoted(out, a.created_by_machine.as_str());
    push_lit(out, ",\"created_at\":");
    push_i64(out, a.created_at);
    push_lit(out, ",\"updated_at\":");
    push_i64(out, a.updated_at);
    push_lit(out, ",\"version\":");
    push_i64(out, a.version);
    push_lit(out, "}");
    proof {
        assert(out@ =~= old(out)@ + enc_alias(*a));
    }
}

#[verifier::rlimit(100)]
fn push_entry_list(out: &mut Vec<char>, es: &Vec<HistoryEntry>)
    ensures
        final(out)@ == old(out)@ + enc_entry_list(es@),
{
    let ghost start = out@;
    let mut i: usize = 0;
    while i < es.len()
        invariant
            i <= es@.len(),
            out@ =~= start + enc_entry_list(es@.subrange(0, i as int)),
        decreases es@.len() - i,
    {
        if i > 0 {
            push_lit(out, ",");
        }
        push_entry(out, &es[i]);
        proof {
            let p1 = es@.subrange(0, i + 1 as int);
            assert(p1.drop_last() =~= es@.subrange(0, i as int));
            assert(p1.last() == es@[i as int]);
            if i == 0 {
                assert(enc_entry_list(p1) =~= enc_entry(es@[0]));
            }
            assert(out@ =~= start + enc_entry_list(p1));
        }
        i += 1;
    }
    proof {
        assert(es@.subrange(0, es@.len() as int) =~= es@);
    }
}

#[verifier::rlimit(100)]
fn push_enc_entry_list(out: &mut Vec<char>, es: &Vec<EncryptedHistoryEntry>)
    ensures
        final(out)@ == old(out)@ + enc_enc_entry_list(es@),
{
    let ghost start = out@;
    let mut i: usize = 0;
    while i < es.len()
        invariant
            i <= es@.len(),
            out@ =~= start + enc_enc_entry_list(es@.subrange(0, i as int)),
        decreases es@.len() - i,
    {
        if i > 0 {
            push_lit(out, ",");
        }
        push_enc_entry(out, &es[i]);
        proof {
            let p1 = es@.subrange(0, i + 1 as int);
            assert(p1.drop_last() =~= es@.subrange(0, i as int));
            assert(p1.last() == es@[i as int]);
            if i == 0 {
                assert(enc_enc_entry_list(p1) =~= enc_enc_entry(es@[0]));
            }
            assert(out@ =~= start + enc_enc_entry_list(p1));
        }
        i += 1;
    }
    proof {
        assert(es@.subrange(0, es@.len() as int) =~= es@);
    }
}

#[verifier::rlimit(100)]
fn push_string_list(out: &mut Vec<char>, gs: &Vec<String>)
    ensures
        final(out)@ == old(out)@ + enc_string_list(gs@),
{
    let ghost start = out@;
    let mut i: usize = 0;
    while i < gs.len()
        invariant
            i <= gs@.len(),
            out@ =~= start + enc_string_list(gs@.subrange(0, i as int)),
        decreases gs@.len() - i,
    {
        if i > 0 {
            push_lit(out, ",");
        }
        push_quoted(out, gs[i].as_str());
        proof {
            let p1 = gs@.subrange(0, i + 1 as int);
            assert(p1.drop_last() =~= gs@.subrange(0, i as int));
            assert(p1.last() == gs@[i as int]);
            if i == 0 {
                assert(enc_string_list(p1) =~= json_quoted(gs@[0]@));
            }
            assert(out@ =~= start + enc_string_list(p1));
        }
        i += 1;
    }
    proof {
        assert(gs@.subrange(0, gs@.len() as int) =~= gs@);
    }
}

/// Serializes a client frame to its canonical wire text.
#[verifier::rlimit(100)]
pub fn encode_client_message(m: &ClientMessage) -> (r: String)
    ensures
        r@ == enc_client(*m),
{
    let mut out: Vec<char> = Vec::new();
    match m {
        ClientMessage::Auth { token } => {
            push_lit(&mut out, "{\"type\":\"auth\",\"token\":");
            push_quoted(&mut out, token.as_str());
            push_lit(&mut out, "}");
        },
        ClientMessage::Ping => {
            push_lit(&mut out, "{\"type\":\"ping\"}");
        },
        ClientMessage::HistoryBatch { entries } => {
            push_lit(&mut out, "{\"type\":\"history_batch\",\"entries\":[");
            push_entry_list(&mut out, entries);
            push_lit(&mut out, "]}");
        },
        ClientMessage::HistoryBatchEncrypted { entries } => {
            push_lit(&mut out, "{\"type\":\"history_batch\",\"encrypted\":true,\"entries\":[");
            push_enc_entry_list(&mut out, entries);
            push_lit(&mut out, "]}");
        },
        ClientMessage::HistoryQuery { after_timestamp, group_name, limit } => {
            push_lit(&mut out, "{\"type\":\"history_query\",\"after_timestamp\":");
            push_i64(&mut out, *after_timestamp);
            push_lit(&mut out, ",\"group_name\":");
            push_quoted(&mut out, group_name.as_str());
            push_lit(&mut out, ",\"limit\":");
            push_i64(&mut out, *limit);
            push_lit(&mut out, "}");
        },
        ClientMessage::KeyRequest { group_name, public_key } => {
            push_lit(&mut out, "{\"type\":\"key_request\",\"group_name\":");
            push_quoted(&mut out, group_name.as_str());
            push_lit(&mut out, ",\"public_key\":");
            push_quoted(&mut out, public_key.as_str());
            push_lit(&mut out, "}");
        },
        ClientMessage::KeyResponse { group_name, target_machine_id, wrapped_key } => {
            push_lit(&mut out, "{\"type\":\"key_response\",\"group_name\":");
            push_quoted(&mut out, group_name.as_str());
            push_lit(&mut out, ",\"target_machine_id\":");
            push_quoted(&mut out, target_machine_id.as_str());
            push_lit(&mut out, ",\"wrapped_key\":");
            push_quoted(&mut out, wrapped_key.as_str());
            push_lit(&mut out, "}");
        },
    }
    proof {
        assert(out@ =~= enc_client(*m));
    }
    chars_to_string(&out)
}

/// Serializes a server frame to its canonical wire text.
#[verifier::rlimit(100)]
pub fn encode_server_event(m: &ServerEvent) -> (r: String)
    ensures
        r@ == enc_server(*m),
{
    let mut out: Vec<char> = Vec::new();
    match m {
        ServerEvent::AuthSuccess { data } => {
            push_lit(&mut out, "{\"event\":\"auth_success\",\"data\":{\"machine_id\":");
            push_quoted(&mut out, data.machine_id.as_str());
            push_lit(&mut out, ",\"groups\":[");
            push_string_list(&mut out, &data.groups);
            push_lit(&mut out, "]}}");
        },
        ServerEvent::AuthFailed { data } => {
            push_lit(&mut out, "{\"event\":\"auth_failed\",\"data\":{\"error\":");
            push_quoted(&mut out, data.error.as_str());
            push_lit(&mut out, "}}");
        },
        ServerEvent::AliasAdded { data } => {
            push_lit(&mut out, "{\"event\":\"alias_added\",\"data\":");
            push_alias(&mut out, data);
            push_lit(&mut out, "}");
        },
        ServerEvent::AliasUpdated { data } => {
            push_lit(&mut out, "{\"event\":\"alias_updated\",\"data\":");
            push_alias(&mut out, data);
            push_lit(&mut out, "}");
        },
        ServerEvent::AliasDeleted { data } => {
            push_lit(&mut out, "{\"event\":\"alias_deleted\",\"data\":{\"id\":");
            push_i64(&mut out, data.id);
            push_lit(&mut out, ",\"name\":");
            push_quoted(&mut out, data.name.as_str());
            push_lit(&mut out, "}}");
        },
        ServerEvent::SyncRequired { data } => {
            push_lit(&mut out, "{\"event\":\"sync_required\",\"data\":{\"message\":");
            push_quoted(&mut out, data.message.as_str());
            push_lit(&mut out, "}}");
        },
        ServerEvent::Pong { data } => {
            push_lit(&mut out, "{\"event\":\"pong\",\"data\":{\"timestamp\":");
            push_i64(&mut out, data.timestamp);
            push_lit(&mut out, "}}");
        },
        ServerEvent::HistorySync { data } => {
            push_lit(&mut out, "{\"event\":\"history_sync\",\"data\":{\"entries\":[");
            push_entry_list(&mut out, &data.entries);
            push_lit(&mut out, "],\"source_machine_id\":");
            push_quoted(&mut out, data.source_machine_id.as_str());
            push_lit(&mut out, "}}");
        },
        ServerEvent::HistorySyncEncrypted { data } => {
            push_lit(
                &mut out,
                "{\"event\":\"history_sync\",\"data\":{\"encrypted\":true,\"entries\":[",
            );
            push_enc_entry_list(&mut out, &data.entries);
            push_lit(&mut out, "],\"source_machine_id\":");
            push_quoted(&mut out, data.source_machine_id.as_str());
            push_lit(&mut out, "}}");
        },
        ServerEvent::HistoryPage { data } => {
            push_lit(&mut out, "{\"event\":\"history_page\",\"data\":{\"entries\":[");
            push_entry_list(&mut out, &data.entries);
            push_lit(&mut out, "],\"has_more\":");
            if data.has_more {
                push_lit(&mut out, "true");
            } else {
                push_lit(&mut out, "false");
            }
            push_lit(&mut out, "}}");
        },
        ServerEvent::KeyRequestEvent { data } => {
            push_lit(&mut out, "{\"event\":\"key_request\",\"data\":{\"group_name\":");
            push_quoted(&mut out, data.group_name.as_str());
            push_lit(&mut out, ",\"requester_machine_id\":");
            push_quoted(&mut out, data.requester_machine_id.as_str());
            push_lit(&mut out, ",\"public_key\":");
            push_quoted(&mut out, data.public_key.as_str());
            push_lit(&mut out, "}}");
        },
        ServerEvent::KeyResponseEvent { data } => {
            push_lit(&mut out, "{\"event\":\"key_response\",\"data\":{\"group_name\":");
            push_quoted(&mut out, data.group_name.as_str());
            push_lit(&mut out, ",\"wrapped_key\":");
            push_quoted(&mut out, data.wrapped_key.as_str());
            push_lit(&mut out, ",\"sender_public_key\":");
            push_quoted(&mut out, data.sender_public_key.as_str());
            push_lit(&mut out, "}}");
        },
    }
    proof {
        assert(out@ =~= enc_server(*m));
    }
    chars_to_string(&out)
}

/// Serializes a hook-socket payload to its canonical line.
#[verifier::rlimit(100)]
pub fn encode_hook_payload(p: &HistoryHookPayload) -> (r: String)
    ensures
        r@ == enc_hook_payload(*p),
{
    let mut out: Vec<char> = Vec::new();
    push_lit(&mut out, "{\"command\":");
    push_quoted(&mut out, p.command.as_str());
    push_lit(&mut out, ",\"cwd\":");
    push_quoted(&mut out, p.cwd.as_str());
    push_lit(&mut out, ",\"exit_code\":");
    push_i32(&mut out, p.exit_code);
    push_lit(&mut out, ",\"duration_ms\":");
    push_i64(&mut out, p.duration_ms);
    push_lit(&mut out, ",\"session_id\":");
    push_quoted(&mut out, p.session_id.as_str());
    push_lit(&mut out, ",\"shell\":");
    push_quoted(&mut out, p.shell.as_str());
    push_lit(&mut out, "}");
    proof {
        assert(out@ =~= enc_hook_payload(*p));
    }
    chars_to_string(&out)
}


fn eat(s: &Vec<char>, pos: usize, lit: &str) -> (r: Option<usize>)
    ensures
        r matches Some(p) ==> pos <= p <= s@.len() && p == pos + lit@.len() && s@.subrange(
            pos as int,
            p as int,
        ) == lit@,
        pos + lit@.len() <= s@.len() && s@.subrange(pos as int, pos + lit@.len()) == lit@ ==> (r
            matches Some(p) && p == pos + lit@.len()),
{
    let l = chars_of(lit);
    if pos > s.len() || s.len() - pos < l.len() {
        return Option::None;
    }
    let n = s.len();
    let mut i: usize = 0;
    while i < l.len()
        invariant
            n == s@.len(),
            pos + l@.len() <= s@.len(),
            i <= l@.len(),
            l@ == lit@,
            forall|k: int| 0 <= k < i ==> s@[pos + k] == l@[k],
        decreases l@.len() - i,
    {
        proof {
            assert(pos + i < n);
        }
        if s[pos + i] != l[i] {
            proof {
                if pos + lit@.len() <= s@.len() && s@.subrange(pos as int, pos + lit@.len())
                    == lit@ {
                    assert(s@.subrange(pos as int, pos + lit@.len())[i as int] == s@[pos + i]);
                    assert(false);
                }
            }
            return Option::None;
        }
        i += 1;
    }
    proof {
        assert(s@.subrange(pos as int, pos + lit@.len()) =~= lit@);
    }
    Option::Some(pos + l.len())
}

/// Parses one JSON string literal at `pos`, accepting exactly the
/// canonical escapes this codec emits. Whatever is accepted is the literal
/// of what is returned, and the canonical literal of any string is
/// accepted: parsing inverts `json_quoted`.
#[verifier::rlimit(100)]
#[verifier::spinoff_prover]
fn p_string(s: &Vec<char>, pos: usize) -> (r: Option<(String, usize)>)
    ensures
        r matches Some(p) ==> pos < p.1 <= s@.len() && s@.subrange(pos as int, p.1 as int)
            == json_quoted(p.0@),
        forall|v: Seq<char>, rest: Seq<char>|
            pos <= s@.len() && s@.skip(pos as int) == #[trigger] (json_quoted(v) + rest) ==> (r
                matches Some(p) && p.0@ == v && p.1 == pos + json_quoted(v).len()),
{
    let ghost t = s@.skip(pos as int);
    if pos >= s.len() || s[pos] != '"' {
        proof {
            assert forall|v: Seq<char>, rest: Seq<char>|
                pos <= s@.len() && s@.skip(pos as int) == #[trigger] (json_quoted(v) + rest)
                    implies false by {
                assert((json_quoted(v) + rest).len() >= 2);
                assert(s@.skip(pos as int).len() == s@.len() - pos);
                assert(pos < s@.len());
                assert(s@.skip(pos as int)[0] == '"');
                assert(s@[pos as int] == '"');
            }
        }
        return Option::None;
    }
    let n = s.len();
    let mut out: Vec<char> = Vec::new();
    let mut i: usize = pos + 1;
    loop
        invariant
            pos < i <= n == s@.len(),
            s@[pos as int] == '"',
            t == s@.skip(pos as int),
            s@.subrange(pos as int, i as int) =~= seq!['"'] + crate::jsontext::json_escape(out@),
        decreases n - i,
    {
        proof {
            assert forall|v: Seq<char>, rest: Seq<char>|
                s@.skip(pos as int) == #[trigger] (json_quoted(v) + rest) implies {
                &&& out@.len() <= v.len()
                &&& out@ == v.take(out@.len() as int)
                &&& s@.skip(i as int) == crate::jsontext::json_escape(v.skip(out@.len() as int))
                    + seq!['"'] + rest
            } by {
                assert(t =~= seq!['"'] + (crate::jsontext::json_escape(v) + seq!['"'] + rest));
                assert(t.skip(1) =~= crate::jsontext::json_escape(v) + seq!['"'] + rest);
                let esc = crate::jsontext::json_escape(out@);
                assert(i - pos == 1 + esc.len()) by {
                    assert(s@.subrange(pos as int, i as int).len() == (seq!['"'] + esc).len());
                }
                assert(t.skip(1) =~= esc + s@.skip(i as int)) by {
                    assert(t.skip(1).len() == esc.len() + s@.skip(i as int).len());
                    assert forall|x: int| 0 <= x < t.skip(1).len() implies t.skip(1)[x] == (esc
                        + s@.skip(i as int))[x] by {
                        assert(t.skip(1)[x] == s@[pos + 1 + x]);
                        if x < esc.len() {
                            assert((seq!['"'] + esc)[1 + x] == esc[x]);
                            assert(s@.subrange(pos as int, i as int)[1 + x] == s@[pos + 1 + x]);
                        } else {
                            assert((esc + s@.skip(i as int))[x] == s@[i + (x - esc.len())]);
                        }
                    }
                }
                crate::jsontext::lemma_escape_align(out@, v, s@.skip(i as int), rest);
            }
        }
        if i >= n {
            proof {
                assert forall|v: Seq<char>, rest: Seq<char>|
                    s@.skip(pos as int) == #[trigger] (json_quoted(v) + rest) implies false by {
                    assert(s@.skip(i as int).len() >= 1);
                }
            }
            return Option::None;
        }
        let c = s[i];
        proof {
            assert(s@.skip(i as int)[0] == c);
        }
        if c == '"' {
            let result = chars_to_string(&out);
            proof {
                assert(s@.subrange(pos as int, i + 1 as int) =~= seq!['"']
                    + crate::jsontext::json_escape(out@) + seq!['"']);
                assert(s@.subrange(pos as int, i + 1 as int) =~= json_quoted(out@));
                assert forall|v: Seq<char>, rest: Seq<char>|
                    s@.skip(pos as int) == #[trigger] (json_quoted(v) + rest) implies {
                    &&& out@ == v
                    &&& i + 1 == pos + json_quoted(v).len()
                } by {
                    if out@.len() < v.len() {
                        crate::jsontext::lemma_escape_front(v.skip(out@.len() as int));
                        crate::jsontext::lemma_escape_char_shape(v[out@.len() as int]);
                        assert(v.skip(out@.len() as int)[0] == v[out@.len() as int]);
                        assert(s@.skip(i as int)[0] == crate::jsontext::json_escape_char(
                            v[out@.len() as int],
                        )[0]);
                        assert(false);
                    }
                    assert(out@ =~= v);
                }
            }
            return Option::Some((result, i + 1));
        }
        if c == '\\' {
            if n - i < 2 {
                proof {
                    assert forall|v: Seq<char>, rest: Seq<char>|
                        s@.skip(pos as int) == #[trigger] (json_quoted(v) + rest) implies false by {
                        escape_here_facts(s@, i as int, out@, v, rest);
                        let vc = v[out@.len() as int];
                        let u = crate::jsontext::json_escape_char(vc);
                        assert(u[0] == s@.skip(i as int)[0] && u[0] == '\\');
                        crate::jsontext::lemma_unit_backslash(vc);
                        assert(s@.skip(i as int).len() >= u.len() + 1);
                    }
                }
                return Option::None;
            }
            let e = s[i + 1];
            proof {
                assert(s@.skip(i as int)[1] == e);
            }
            let ghost out_prev = out@;
            if e == '"' {
                out.push('"');
                i = i + 2;
            } else if e == '\\' {
                out.push('\\');
                i = i + 2;
            } else if e == 'n' {
                out.push('\n');
                i = i + 2;
            } else if e == 'r' {
                out.push('\r');
                i = i + 2;
            } else if e == 't' {
                out.push('\t');
                i = i + 2;
            } else if e == 'u' {
                if n - i < 6 {
                    proof {
                        assert forall|v: Seq<char>, rest: Seq<char>|
                            s@.skip(pos as int) == #[trigger] (json_quoted(v) + rest)
                                implies false by {
                            escape_here_facts(s@, i as int, out@, v, rest);
                            let vc = v[out@.len() as int];
                            let u = crate::jsontext::json_escape_char(vc);
                            assert(u[0] == s@.skip(i as int)[0] && u[0] == '\\');
                            crate::jsontext::lemma_unit_backslash(vc);
                            assert(u[1] == s@.skip(i as int)[1] && u[1] == 'u');
                            crate::jsontext::lemma_unit_u(vc);
                            assert(s@.skip(i as int).len() >= 7);
                        }
                    }
                    return Option::None;
                }
                if s[i + 2] != '0' || s[i + 3] != '0' {
                    proof {
                        assert forall|v: Seq<char>, rest: Seq<char>|
                            s@.skip(pos as int) == #[trigger] (json_quoted(v) + rest)
                                implies false by {
                            escape_here_facts(s@, i as int, out@, v, rest);
                            let vc = v[out@.len() as int];
                            let u = crate::jsontext::json_escape_char(vc);
                            assert(u[0] == s@.skip(i as int)[0] && u[0] == '\\');
                            crate::jsontext::lemma_unit_backslash(vc);
                            assert(u[1] == s@.skip(i as int)[1] && u[1] == 'u');
                            crate::jsontext::lemma_unit_u(vc);
                            assert(s@.skip(i as int)[2] == u[2] && s@.skip(i as int)[3] == u[3]);
                        }
                    }
                    return Option::None;
                }
                let hv = hex_val(s[i + 4]);
                let lv = hex_val(s[i + 5]);
                match (hv, lv) {
                    (Option::Some(h), Option::Some(l)) => {
                        let code: u8 = h * 16 + l;
                        if code >= 32 || code == 9 || code == 10 || code == 13 {
                            proof {
                                assert forall|v: Seq<char>, rest: Seq<char>|
                                    s@.skip(pos as int) == #[trigger] (json_quoted(v) + rest)
                                        implies false by {
                                    escape_here_facts(s@, i as int, out@, v, rest);
                                    let vc = v[out@.len() as int];
                                    let u = crate::jsontext::json_escape_char(vc);
                                    assert(u[0] == s@.skip(i as int)[0] && u[0] == '\\');
                                    crate::jsontext::lemma_unit_backslash(vc);
                                    assert(u[1] == s@.skip(i as int)[1] && u[1] == 'u');
                                    crate::jsontext::lemma_unit_u(vc);
                                    assert((vc as u32) < 32);
                                    vstd::utf8::char_u32_cast(vc, vc as u32);
                                    assert(vc as int == (vc as u32) as int);
                                    assert(s@.skip(i as int)[4] == u[4]
                                        && s@.skip(i as int)[5] == u[5]);
                                    assert(u[4] == crate::jsontext::hex_char(vc as int / 16));
                                    assert(u[5] == crate::jsontext::hex_char(vc as int % 16));
                                    assert(crate::jsontext::hex_char(h as int) == u[4]);
                                    assert(crate::jsontext::hex_char(l as int) == u[5]);
                                    crate::jsontext::lemma_hex_char_injective(
                                        h as int,
                                        vc as int / 16,
                                    );
                                    crate::jsontext::lemma_hex_char_injective(
                                        l as int,
                                        vc as int % 16,
                                    );
                                    assert(code as int == vc as int);
                                    vstd::utf8::char_u32_cast(vc, vc as u32);
                                }
                            }
                            return Option::None;
                        }
                        out.push(code as char);
                        proof {
                            let pc = code as char;
                            assert((pc as u32) < 32 && pc != '\n' && pc != '\r' && pc != '\t'
                                && pc != '"' && pc != '\\') by {
                                vstd::utf8::char_u32_cast(pc, pc as u32);
                            }
                            assert(crate::jsontext::json_escape_char(pc) =~= seq![
                                '\\',
                                'u',
                                '0',
                                '0',
                                crate::jsontext::hex_char(pc as int / 16),
                                crate::jsontext::hex_char(pc as int % 16),
                            ]);
                            assert(s@[i + 4] == crate::jsontext::hex_char(pc as int / 16));
                            assert(s@[i + 5] == crate::jsontext::hex_char(pc as int % 16));
                        }
                        i = i + 6;
                    },
                    _ => {
                        proof {
                            assert forall|v: Seq<char>, rest: Seq<char>|
                                s@.skip(pos as int) == #[trigger] (json_quoted(v) + rest)
                                    implies false by {
                                escape_here_facts(s@, i as int, out@, v, rest);
                                let vc = v[out@.len() as int];
                                let u = crate::jsontext::json_escape_char(vc);
                                assert(u[0] == s@.skip(i as int)[0] && u[0] == '\\');
                                crate::jsontext::lemma_unit_backslash(vc);
                                assert(u[1] == s@.skip(i as int)[1] && u[1] == 'u');
                                crate::jsontext::lemma_unit_u(vc);
                                assert((vc as u32) < 32);
                                    vstd::utf8::char_u32_cast(vc, vc as u32);
                                    assert(vc as int == (vc as u32) as int);
                                assert(s@.skip(i as int)[4] == u[4]
                                    && s@.skip(i as int)[5] == u[5]);
                                assert(u[4] == crate::jsontext::hex_char(vc as int / 16));
                                assert(u[5] == crate::jsontext::hex_char(vc as int % 16));
                                lemma_hex_val_of_hex_char(vc as int / 16);
                                lemma_hex_val_of_hex_char(vc as int % 16);
                                assert(s@[i + 4 as int] == s@.skip(i as int)[4]);
                                assert(s@[i + 5 as int] == s@.skip(i as int)[5]);
                            }
                        }
                        return Option::None;
                    },
                }
            } else {
                proof {
                    assert forall|v: Seq<char>, rest: Seq<char>|
                        s@.skip(pos as int) == #[trigger] (json_quoted(v) + rest) implies false by {
                        escape_here_facts(s@, i as int, out@, v, rest);
                        let vc = v[out@.len() as int];
                        let u = crate::jsontext::json_escape_char(vc);
                        assert(u[0] == s@.skip(i as int)[0] && u[0] == '\\');
                        crate::jsontext::lemma_unit_backslash(vc);
                        assert(s@.skip(i as int)[1] == u[1]);
                    }
                }
                return Option::None;
            }
            proof {
                let unit = crate::jsontext::json_escape_char(out@.last());
                assert(s@.subrange(pos as int, i as int) =~= seq!['"']
                    + crate::jsontext::json_escape(out_prev) + unit);
                crate::jsontext::lemma_escape_concat(out_prev, seq![out@.last()]);
                assert(crate::jsontext::json_escape(seq![out@.last()]) =~= unit) by {
                    let single = seq![out@.last()];
                    assert(single.drop_last() =~= Seq::<char>::empty());
                    assert(crate::jsontext::json_escape(single.drop_last()).len() == 0);
                    assert(single.last() == out@.last());
                    assert(crate::jsontext::json_escape(single)
                        =~= crate::jsontext::json_escape(single.drop_last())
                        + crate::jsontext::json_escape_char(out@.last()));
                }
                assert(out@ =~= out_prev + seq![out@.last()]);
                assert(s@.subrange(pos as int, i as int) =~= seq!['"']
                    + crate::jsontext::json_escape(out@));
            }
        } else {
            if (c as u32) < 32 {
                proof {
                    assert forall|v: Seq<char>, rest: Seq<char>|
                        s@.skip(pos as int) == #[trigger] (json_quoted(v) + rest) implies false by {
                        escape_here_facts(s@, i as int, out@, v, rest);
                        let vc = v[out@.len() as int];
                        let u = crate::jsontext::json_escape_char(vc);
                        crate::jsontext::lemma_escape_char_shape(vc);
                        if u[0] == '\\' {
                        } else {
                            assert(u == seq![vc]);
                            assert(c == vc);
                            assert(!(vc == '"' || vc == '\\' || (vc as u32) < 32));
                        }
                    }
                }
                return Option::None;
            }
            let ghost out_prev = out@;
            out.push(c);
            proof {
                let unit = crate::jsontext::json_escape_char(c);
                assert(unit =~= seq![c]);
                assert(s@.subrange(pos as int, i + 1 as int) =~= seq!['"']
                    + crate::jsontext::json_escape(out_prev) + unit);
                crate::jsontext::lemma_escape_concat(out_prev, seq![c]);
                assert(crate::jsontext::json_escape(seq![c]) =~= unit) by {
                    let single = seq![c];
                    assert(single.drop_last() =~= Seq::<char>::empty());
                    assert(crate::jsontext::json_escape(single.drop_last()).len() == 0);
                    assert(single.last() == c);
                    assert(crate::jsontext::json_escape(single)
                        =~= crate::jsontext::json_escape(single.drop_last())
                        + crate::jsontext::json_escape_char(c));
                }
                assert(out@ =~= out_prev + seq![c]);
                assert(s@.subrange(pos as int, i + 1 as int) =~= seq!['"']
                    + crate::jsontext::json_escape(out@));
            }
            i = i + 1;
        }
    }
}

/// At an unfinished parse, the input continues with the escape unit of the
/// next character of any string the text quotes.
proof fn escape_here_facts(
    s: Seq<char>,
    i: int,
    out: Seq<char>,
    v: Seq<char>,
    rest: Seq<char>,
)
    requires
        0 <= i <= s.len(),
        out.len() <= v.len(),
        out == v.take(out.len() as int),
        s.skip(i) == crate::jsontext::json_escape(v.skip(out.len() as int)) + seq!['"'] + rest,
        s.len() > i && s[i] != '"',
    ensures
        out.len() < v.len(),
        s.skip(i).len() >= crate::jsontext::json_escape_char(v[out.len() as int]).len() + 1,
        forall|x: int|
            0 <= x < crate::jsontext::json_escape_char(v[out.len() as int]).len()
                ==> s.skip(i)[x] == #[trigger] crate::jsontext::json_escape_char(
                v[out.len() as int],
            )[x],
{
    if out.len() == v.len() {
        assert(v.skip(out.len() as int).len() == 0);
        assert(crate::jsontext::json_escape(v.skip(out.len() as int)).len() == 0);
        assert(s.skip(i)[0] == '"');
        assert(s[i] == '"');
        assert(false);
    }
    crate::jsontext::lemma_escape_front(v.skip(out.len() as int));
    assert(v.skip(out.len() as int)[0] == v[out.len() as int]);
    let u = crate::jsontext::json_escape_char(v[out.len() as int]);
    assert(s.skip(i) =~= u + (crate::jsontext::json_escape(v.skip(out.len() as int).skip(1))
        + seq!['"'] + rest));
    crate::jsontext::lemma_escape_char_shape(v[out.len() as int]);
    assert forall|x: int| 0 <= x < u.len() implies s.skip(i)[x] == #[trigger] u[x] by {
        assert(s.skip(i)[x] == (u + (crate::jsontext::json_escape(
            v.skip(out.len() as int).skip(1),
        ) + seq!['"'] + rest))[x]);
    }
}

fn hex_val(c: char) -> (r: Option<u8>)
    ensures
        r matches Some(v) ==> v < 16 && crate::jsontext::hex_char(v as int) == c,
        r is None ==> !('0' <= c && c <= '9') && !('a' <= c && c <= 'f'),
{
    if '0' <= c && c <= '9' {
        let v = (c as u8) - ('0' as u8);
        proof {
            vstd::utf8::char_u32_cast(c, c as u32);
        }
        Option::Some(v)
    } else if 'a' <= c && c <= 'f' {
        let v = (c as u8) - ('a' as u8) + 10;
        proof {
            vstd::utf8::char_u32_cast(c, c as u32);
        }
        Option::Some(v)
    } else {
        Option::None
    }
}

/// The hex digit of a value below sixteen is one of the characters the
/// reader accepts.
proof fn lemma_hex_val_of_hex_char(d: int)
    requires
        0 <= d < 16,
    ensures
        '0' <= crate::jsontext::hex_char(d) <= '9' || 'a' <= crate::jsontext::hex_char(d) <= 'f',
{
}

fn p_i64(s: &Vec<char>, pos: usize) -> (r: Option<(i64, usize)>)
    ensures
        r matches Some(p) ==> pos < p.1 <= s@.len(),
{
    if pos >= s.len() {
        return Option::None;
    }
    let mut i: usize = pos;
    let mut neg = false;
    if i < s.len() && s[i] == '-' {
        neg = true;
        i += 1;
    }
    let digits_start = i;
    let mut mag: u64 = 0;
    while i < s.len() && '0' <= s[i] && s[i] <= '9'
        invariant
            pos <= digits_start <= i <= s@.len(),
        decreases s@.len() - i,
    {
        let d = ((s[i] as u8) - ('0' as u8)) as u64;
        if mag > (u64::MAX - d) / 10 {
            return Option::None;
        }
        mag = mag * 10 + d;
        i += 1;
    }
    if i == digits_start {
        return Option::None;
    }
    if neg {
        if mag <= 9223372036854775807u64 {
            Option::Some((-(mag as i64), i))
        } else if mag == 9223372036854775808u64 {
            Option::Some((i64::MIN, i))
        } else {
            Option::None
        }
    } else {
        if mag <= 9223372036854775807u64 {
            Option::Some((mag as i64, i))
        } else {
            Option::None
        }
    }
}

fn p_i32(s: &Vec<char>, pos: usize) -> (r: Option<(i32, usize)>)
    ensures
        r matches Some(p) ==> pos < p.1 <= s@.len(),
{
    match p_i64(s, pos) {
        Option::Some((v, p)) => {
            if v >= i32::MIN as i64 && v <= i32::MAX as i64 {
                Option::Some((v as i32, p))
            } else {
                Option::None
            }
        },
        Option::None => Option::None,
    }
}

fn p_entry(s: &Vec<char>, pos: usize) -> (r: Option<(HistoryEntry, usize)>)
    ensures
        r matches Some(p) ==> pos < p.1 <= s@.len(),
{
    let p = match eat(s, pos, "{\"id\":") {
        Option::Some(p) => p,
        Option::None => {
            return Option::None;
        },
    };
    let (id, p) = match p_string(s, p) {
        Option::Some(v) => v,
        Option::None => {
            return Option::None;
        },
    };
    let p = match eat(s, p, ",\"command\":") {
        Option::Some(p) => p,
        Option::None => {
            return Option::None;
        },
    };
    let (command, p) = match p_string(s, p) {
        Option::Some(v) => v,
        Option::None => {
            return Option::None;
        },
    };
    let p = match eat(s, p, ",\"cwd\":") {
        Option::Some(p) => p,
        Option::None => {
            return Option::None;
        },
    };
    let (cwd, p) = match p_string(s, p) {
        Option::Some(v) => v,
        Option::None => {
            return Option::None;
        },
    };
    let p = match eat(s, p, ",\"exit_code\":") {
        Option::Some(p) => p,
        Option::None => {
            return Option::None;
        },
    };
    let (exit_code, p) = match p_i32(s, p) {
        Option::Some(v) => v,
        Option::None => {
            return Option::None;
        },
    };
    let p = match eat(s, p, ",\"duration_ms\":") {
        Option::Some(p) => p,
        Option::None => {
            return Option::None;
        },
    };
    let (duration_ms, p) = match p_i64(s, p) {
        Option::Some(v) => v,
        Option::None => {
            return Option::None;
        },
    };
    let p = match eat(s, p, ",\"session_id\":") {
        Option::Some(p) => p,
        Option::None => {
            return Option::None;
        },
    };
    let (session_id, p) = match p_string(s, p) {
        Option::Some(v) => v,
        Option::None => {
            return Option::None;
        },
    };
    let p = match eat(s, p, ",\"machine_id\":") {
        Option::Some(p) => p,
        Option::None => {
            return Option::None;
        },
    };
    let (machine_id, p) = match p_string(s, p) {
        Option::Some(v) => v,
        Option::None => {
            return Option::None;
        },
    };
    let p = match eat(s, p, ",\"hostname\":") {
        Option::Some(p) => p,
        Option::None => {
            return Option::None;
        },
    };
    let (hostname, p) = match p_string(s, p) {
        Option::Some(v) => v,
        Option::None => {
            return Option::None;
        },
    };
    let p = match eat(s, p, ",\"timestamp\":") {
        Option::Some(p) => p,
        Option::None => {
            return Option::None;
        },
    };
    let (timestamp, p) = match p_i64(s, p) {
        Option::Some(v) => v,
        Option::None => {
            return Option::None;
        },
    };
    let p = match eat(s, p, ",\"shell\":") {
        Option::Some(p) => p,
        Option::None => {
            return Option::None;
        },
    };
    let (shell, p) = match p_string(s, p) {
        Option::Some(v) => v,
        Option::None => {
            return Option::None;
        },
    };
    let p = match eat(s, p, ",\"group_name\":") {
        Option::Some(p) => p,
        Option::None => {
            return Option::None;
        },
    };
    let (group_name, p) = match p_string(s, p) {
        Option::Some(v) => v,
        Option::None => {
            return Option::None;
        },
    };
    let p = match eat(s, p, "}") {
        Option::Some(p) => p,
        Option::None => {
            return Option::None;
        },
    };
    if p <= pos {
        return Option::None;
    }
    Option::Some(
        (
            HistoryEntry {
                id,
                command,
                cwd,
                exit_code,
                duration_ms,
                session_id,
                machine_id,
                hostname,
                timestamp,
                shell,
                group_name,
            },
            p,
        ),
    )
}

fn p_enc_entry(s: &Vec<char>, pos: usize) -> (r: Option<(EncryptedHistoryEntry, usize)>)
    ensures
        r matches Some(p) ==> pos < p.1 <= s@.len(),
{
    let p = match eat(s, pos, "{\"id\":") {
        Option::Some(p) => p,
        Option::None => {
            return Option::None;
        },
    };
    let (id, p) = match p_string(s, p) {
        Option::Some(v) => v,
        Option::None => {
            return Option::None;
        },
    };
    let p = match eat(s, p, ",\"command\":") {
        Option::Some(p) => p,
        Option::None => {
            return Option::None;
        },
    };
    let (command, p) = match p_string(s, p) {
        Option::Some(v) => v,
        Option::None => {
            return Option::None;
        },
    };
    let p = match eat(s, p, ",\"cwd\":") {
        Option::Some(p) => p,
        Option::None => {
            return Option::None;
        },
    };
    let (cwd, p) = match p_string(s, p) {
        Option::Some(v) => v,
        Option::None => {
            return Option::None;
        },
    };
    let p = match eat(s, p, ",\"exit_code\":") {
        Option::Some(p) => p,
        Option::None => {
            return Option::None;
        },
    };
    let (exit_code, p) = match p_string(s, p) {
        Option::Some(v) => v,
        Option::None => {
            return Option::None;
        },
    };
    let p = match eat(s, p, ",\"duration_ms\":") {
        Option::Some(p) => p,
        Option::None => {
            return Option::None;
        },
    };
    let (duration_ms, p) = match p_string(s, p) {
        Option::Some(v) => v,
        Option::None => {
            return Option::None;
        },
    };
    let p = match eat(s, p, ",\"session_id\":") {
        Option::Some(p) => p,
        Option::None => {
            return Option::None;
        },
    };
    let (session_id, p) = match p_string(s, p) {
        Option::Some(v) => v,
        Option::None => {
            return Option::None;
        },
    };
    let p = match eat(s, p, ",\"machine_id\":") {
        Option::Some(p) => p,
        Option::None => {
            return Option::None;
        },
    };
    let (machine_id, p) = match p_string(s, p) {
        Option::Some(v) => v,
        Option::None => {
            return Option::None;
        },
    };
    let p = match eat(s, p, ",\"hostname\":") {
        Option::Some(p) => p,
        Option::None => {
            return Option::None;
        },
    };
    let (hostname, p) = match p_string(s, p) {
        Option::Some(v) => v,
        Option::None => {
            return Option::None;
        },
    };
    let p = match eat(s, p, ",\"timestamp\":") {
        Option::Some(p) => p,
        Option::None => {
            return Option::None;
        },
    };
    let (timestamp, p) = match p_i64(s, p) {
        Option::Some(v) => v,
        Option::None => {
            return Option::None;
        },
    };
    let p = match eat(s, p, ",\"shell\":") {
        Option::Some(p) => p,
        Option::None => {
            return Option::None;
        },
    };
    let (shell, p) = match p_string(s, p) {
        Option::Some(v) => v,
        Option::None => {
            return Option::None;
        },
    };
    let p = match eat(s, p, ",\"group_name\":") {
        Option::Some(p) => p,
        Option::None => {
            return Option::None;
        },
    };
    let (group_name, p) = match p_string(s, p) {
        Option::Some(v) => v,
        Option::None => {
            return Option::None;
        },
    };
    let p = match eat(s, p, ",\"nonces\":") {
        Option::Some(p) => p,
        Option::None => {
            return Option::None;
        },
    };
    let (nonces, p) = match p_string(s, p) {
        Option::Some(v) => v,
        Option::None => {
            return Option::None;
        },
    };
    let p = match eat(s, p, "}") {
        Option::Some(p) => p,
        Option::None => {
            return Option::None;
        },
    };
    if p <= pos {
        return Option::None;
    }
    Option::Some(
        (
            EncryptedHistoryEntry {
                id,
                command,
                cwd,
                exit_code,
                duration_ms,
                session_id,
                machine_id,
                hostname,
                timestamp,
                shell,
                group_name,
                nonces,
            },
            p,
        ),
    )
}

fn p_alias(s: &Vec<char>, pos: usize) -> (r: Option<(Alias, usize)>)
    ensures
        r matches Some(p) ==> pos < p.1 <= s@.len(),
{
    let p = match eat(s, pos, "{\"id\":") {
        Option::Some(p) => p,
        Option::None => {
            return Option::None;
        },
    };
    let (id, p) = match p_i64(s, p) {
        Option::Some(v) => v,
        Option::None => {
            return Option::None;
        },
    };
    let p = match eat(s, p, ",\"name\":") {
        Option::Some(p) => p,
        Option::None => {
            return Option::None;
        },
    };
    let (name, p) = match p_string(s, p) {
        Option::Some(v) => v,
        Option::None => {
            return Option::None;
        },
    };
    let p = match eat(s, p, ",\"command\":") {
        Option::Some(p) => p,
        Option::None => {
            return Option::None;
        },
    };
    let (command, p) = match p_string(s, p) {
        Option::Some(v) => v,
        Option::None => {
            return Option::None;
        },
    };
    let p = match eat(s, p, ",\"group_name\":") {
        Option::Some(p) => p,
        Option::None => {
            return Option::None;
        },
    };
    let (group_name, p) = match p_string(s, p) {
        Option::Some(v) => v,
        Option::None => {
            return Option::None;
        },
    };
    let p = match eat(s, p, ",\"created_by_machine\":") {
        Option::Some(p) => p,
        Option::None => {
            return Option::None;
        },
    };
    let (created_by_machine, p) = match p_string(s, p) {
        Option::Some(v) => v,
        Option::None => {
            return Option::None;
        },
    };
    let p = match eat(s, p, ",\"created_at\":") {
        Option::Some(p) => p,
        Option::None => {
            return Option::None;
        },
    };
    let (created_at, p) = match p_i64(s, p) {
        Option::Some(v) => v,
        Option::None => {
            return Option::None;
        },
    };
    let p = match eat(s, p, ",\"updated_at\":") {
        Option::Some(p) => p,
        Option::None => {
            return Option::None;
        },
    };
    let (updated_at, p) = match p_i64(s, p) {
        Option::Some(v) => v,
        Option::None => {
            return Option::None;
        },
    };
    let p = match eat(s, p, ",\"version\":") {
        Option::Some(p) => p,
        Option::None => {
            return Option::None;
        },
    };
    let (version, p) = match p_i64(s, p) {
        Option::Some(v) => v,
        Option::None => {
            return Option::None;
        },
    };
    let p = match eat(s, p, "}") {
        Option::Some(p) => p,
        Option::None => {
            return Option::None;
        },
    };
    if p <= pos {
        return Option::None;
    }
    Option::Some(
        (
            Alias {
                id,
                name,
                command,
                group_name,
                created_by_machine,
                created_at,
                updated_at,
                version,
            },
            p,
        ),
    )
}

fn p_entry_array(s: &Vec<char>, pos: usize) -> (r: Option<(Vec<HistoryEntry>, usize)>)
    ensures
        r matches Some(p) ==> pos <= p.1 <= s@.len(),
{
    let mut out: Vec<HistoryEntry> = Vec::new();
    if pos >= s.len() {
        return Option::None;
    }
    if s[pos] == ']' {
        return Option::Some((out, pos + 1));
    }
    let mut p = pos;
    loop
        invariant
            pos <= p <= s@.len(),
        decreases s@.len() - p,
    {
        let (e, p2) = match p_entry(s, p) {
            Option::Some(v) => v,
            Option::None => {
                return Option::None;
            },
        };
        out.push(e);
        p = p2;
        if p >= s.len() {
            return Option::None;
        }
        if s[p] == ']' {
            return Option::Some((out, p + 1));
        }
        if s[p] != ',' {
            return Option::None;
        }
        p = p + 1;
        if p >= s.len() {
            return Option::None;
        }
    }
}

fn p_enc_entry_array(s: &Vec<char>, pos: usize) -> (r: Option<(Vec<EncryptedHistoryEntry>, usize)>)
    ensures
        r matches Some(p) ==> pos <= p.1 <= s@.len(),
{
    let mut out: Vec<EncryptedHistoryEntry> = Vec::new();
    if pos >= s.len() {
        return Option::None;
    }
    if s[pos] == ']' {
        return Option::Some((out, pos + 1));
    }
    let mut p = pos;
    loop
        invariant
            pos <= p <= s@.len(),
        decreases s@.len() - p,
    {
        let (e, p2) = match p_enc_entry(s, p) {
            Option::Some(v) => v,
            Option::None => {
                return Option::None;
            },
        };
        out.push(e);
        p = p2;
        if p >= s.len() {
            return Option::None;
        }
        if s[p] == ']' {
            return Option::Some((out, p + 1));
        }
        if s[p] != ',' {
            return Option::None;
        }
        p = p + 1;
        if p >= s.len() {
            return Option::None;
        }
    }
}


/// The wire text from a point inside a string array: the elements still to
/// come, comma separated, then the closing bracket and whatever follows.
pub(crate) open spec fn strlist_text(gs: Seq<String>, rest: Seq<char>) -> Seq<char>
    decreases gs.len(),
{
    if gs.len() == 0 {
        "]"@ + rest
    } else if gs.len() == 1 {
        json_quoted(gs[0]@) + ("]"@ + rest)
    } else {
        json_quoted(gs[0]@) + (","@ + strlist_text(gs.skip(1), rest))
    }
}

/// A string list of two or more elements renders as its first element,
/// a comma, and the rest.
proof fn lemma_string_list_head(gs: Seq<String>)
    requires
        gs.len() >= 2,
    ensures
        enc_string_list(gs) == json_quoted(gs[0]@) + (","@ + enc_string_list(gs.skip(1))),
    decreases gs.len(),
{
    if gs.len() == 2 {
        assert(gs.drop_last() =~= seq![gs[0]]);
        assert(enc_string_list(seq![gs[0]]) == json_quoted(seq![gs[0]][0]@));
        assert(gs.skip(1) =~= seq![gs[1]]);
        assert(enc_string_list(seq![gs[1]]) == json_quoted(seq![gs[1]][0]@));
        assert(enc_string_list(gs) == enc_string_list(gs.drop_last()) + ","@ + json_quoted(
            gs.last()@,
        ));
        assert(enc_string_list(gs) =~= json_quoted(gs[0]@) + (","@ + enc_string_list(
            gs.skip(1),
        )));
    } else {
        lemma_string_list_head(gs.drop_last());
        assert(gs.drop_last().skip(1) =~= gs.skip(1).drop_last());
        assert(gs.skip(1).len() >= 2);
        assert(enc_string_list(gs.skip(1)) == enc_string_list(gs.skip(1).drop_last()) + ","@
            + json_quoted(gs.skip(1).last()@));
        assert(gs.skip(1).last() == gs.last());
        assert(gs.drop_last()[0] == gs[0]);
        assert(enc_string_list(gs) == enc_string_list(gs.drop_last()) + ","@ + json_quoted(
            gs.last()@,
        ));
        assert(enc_string_list(gs) =~= json_quoted(gs[0]@) + (","@ + enc_string_list(
            gs.skip(1),
        )));
    }
}

/// A whole string array's text is the remaining-elements text taken from
/// its start.
proof fn lemma_strlist_text(gs: Seq<String>, rest: Seq<char>)
    ensures
        enc_string_list(gs) + ("]"@ + rest) == strlist_text(gs, rest),
    decreases gs.len(),
{
    if gs.len() == 0 {
        assert(enc_string_list(gs) + ("]"@ + rest) =~= "]"@ + rest);
    } else if gs.len() == 1 {
        assert(enc_string_list(gs) + ("]"@ + rest) =~= json_quoted(gs[0]@) + ("]"@ + rest));
    } else {
        lemma_string_list_head(gs);
        lemma_strlist_text(gs.skip(1), rest);
        assert(enc_string_list(gs) + ("]"@ + rest) =~= json_quoted(gs[0]@) + (","@ + (
        enc_string_list(gs.skip(1)) + ("]"@ + rest))));
    }
}

#[verifier::rlimit(100)]
#[verifier::spinoff_prover]
pub(crate) fn p_string_array(s: &Vec<char>, pos: usize) -> (r: Option<(Vec<String>, usize)>)
    ensures
        r matches Some(p) ==> pos <= p.1 <= s@.len() && s@.subrange(pos as int, p.1 as int)
            == enc_string_list(p.0@) + "]"@,
        forall|gs: Seq<String>, rest: Seq<char>|
            pos <= s@.len() && s@.skip(pos as int) == #[trigger] strlist_text(gs, rest) ==> (r
                matches Some(p) && p.0@.len() == gs.len() && (forall|k: int|
                0 <= k < gs.len() ==> p.0@[k]@ == gs[k]@) && p.1 == pos + enc_string_list(
                gs,
            ).len() + "]"@.len()),
{
    let mut out: Vec<String> = Vec::new();
    if pos >= s.len() {
        proof {
            assert forall|gs: Seq<String>, rest: Seq<char>|
                pos <= s@.len() && s@.skip(pos as int) == #[trigger] strlist_text(gs, rest)
                    implies false by {
                lemma_strlist_text(gs, rest);
                reveal_strlit("]");
                assert(strlist_text(gs, rest).len() > 0);
                assert(s@.skip(pos as int).len() == 0);
            }
        }
        return Option::None;
    }
    if s[pos] == ']' {
        proof {
            reveal_strlit("]");
            assert(s@.subrange(pos as int, pos + 1) =~= enc_string_list(out@) + "]"@);
            assert forall|gs: Seq<String>, rest: Seq<char>|
                pos <= s@.len() && s@.skip(pos as int) == #[trigger] strlist_text(gs, rest)
                    implies (gs.len() == 0 && pos + 1 == pos + enc_string_list(gs).len()
                    + "]"@.len()) by {
                lemma_strlist_text(gs, rest);
                if gs.len() > 0 {
                    assert(s@.skip(pos as int)[0] == s@[pos as int]);
                    assert(strlist_text(gs, rest)[0] == json_quoted(gs[0]@)[0]);
                    assert(json_quoted(gs[0]@)[0] == '"');
                }
            }
        }
        return Option::Some((out, pos + 1));
    }
    let mut p = pos;
    proof {
        assert forall|gs: Seq<String>, rest: Seq<char>|
            pos <= s@.len() && s@.skip(pos as int) == #[trigger] strlist_text(gs, rest)
                implies (out@.len() < gs.len() && s@.skip(p as int) == strlist_text(
                gs.skip(out@.len() as int),
                rest,
            )) by {
            if gs.len() == 0 {
                reveal_strlit("]");
                assert(s@.skip(pos as int)[0] == s@[pos as int]);
                assert(("]"@ + rest)[0] == "]"@[0]);
            }
            assert(gs.skip(0) =~= gs);
        }
    }
    loop
        invariant
            pos <= p <= s@.len(),
            (out@.len() == 0 && p == pos) || (out@.len() > 0 && s@.subrange(
                pos as int,
                p as int,
            ) == enc_string_list(out@) + ","@),
            forall|gs: Seq<String>, rest: Seq<char>|
                pos <= s@.len() && s@.skip(pos as int) == #[trigger] strlist_text(gs, rest) ==> (
                out@.len() < gs.len() && (forall|k: int|
                    0 <= k < out@.len() ==> out@[k]@ == gs[k]@) && s@.skip(p as int)
                    == strlist_text(gs.skip(out@.len() as int), rest)),
        decreases s@.len() - p,
    {
        let ghost out_prev = out@;
        let (e, p2) = match p_string(s, p) {
            Option::Some(v) => v,
            Option::None => {
                proof {
                    assert forall|gs: Seq<String>, rest: Seq<char>|
                        pos <= s@.len() && s@.skip(pos as int) == #[trigger] strlist_text(
                            gs,
                            rest,
                        ) implies false by {
                        let k = out_prev.len() as int;
                        let suffix = gs.skip(k);
                        if suffix.len() == 1 {
                            assert(s@.skip(p as int) == json_quoted(suffix[0]@) + ("]"@ + rest));
                        } else {
                            assert(s@.skip(p as int) == json_quoted(suffix[0]@) + (","@
                                + strlist_text(suffix.skip(1), rest)));
                        }
                    }
                }
                return Option::None;
            },
        };
        out.push(e);
        proof {
            assert(out@.drop_last() =~= out_prev);
            assert(out@.last() == e);
            if out_prev.len() == 0 {
                assert(out@ =~= seq![e]);
                assert(enc_string_list(out@) == json_quoted(out@[0]@));
                assert(s@.subrange(p as int, p2 as int) == json_quoted(e@));
                assert(s@.subrange(pos as int, p2 as int) =~= enc_string_list(out@));
            } else {
                assert(enc_string_list(out@) == enc_string_list(out_prev) + ","@ + json_quoted(
                    e@,
                ));
                assert(s@.subrange(p as int, p2 as int) == json_quoted(e@));
                assert(s@.subrange(pos as int, p2 as int) =~= enc_string_list(out@));
            }
        }
        if p2 >= s.len() {
            proof {
                assert forall|gs: Seq<String>, rest: Seq<char>|
                    pos <= s@.len() && s@.skip(pos as int) == #[trigger] strlist_text(gs, rest)
                        implies false by {
                    let k = out_prev.len() as int;
                    let suffix = gs.skip(k);
                    if suffix.len() == 1 {
                        assert(s@.skip(p as int) == json_quoted(suffix[0]@) + ("]"@ + rest));
                        assert(p2 == p + json_quoted(suffix[0]@).len());
                        lemma_tail_decomp(s@, p as int, json_quoted(suffix[0]@), "]"@ + rest);
                        reveal_strlit("]");
                    } else {
                        assert(s@.skip(p as int) == json_quoted(suffix[0]@) + (","@
                            + strlist_text(suffix.skip(1), rest)));
                        assert(p2 == p + json_quoted(suffix[0]@).len());
                        lemma_tail_decomp(
                            s@,
                            p as int,
                            json_quoted(suffix[0]@),
                            ","@ + strlist_text(suffix.skip(1), rest),
                        );
                        reveal_strlit(",");
                    }
                }
            }
            return Option::None;
        }
        if s[p2] == ']' {
            proof {
                reveal_strlit("]");
                assert(s@.subrange(pos as int, p2 + 1) =~= enc_string_list(out@) + "]"@);
                assert forall|gs: Seq<String>, rest: Seq<char>|
                    pos <= s@.len() && s@.skip(pos as int) == #[trigger] strlist_text(gs, rest)
                        implies (out@.len() == gs.len() && (forall|k: int|
                        0 <= k < gs.len() ==> out@[k]@ == gs[k]@) && p2 + 1 == pos
                        + enc_string_list(gs).len() + "]"@.len()) by {
                    let k = out_prev.len() as int;
                    let suffix = gs.skip(k);
                    if suffix.len() == 1 {
                        assert(s@.skip(p as int) == json_quoted(suffix[0]@) + ("]"@ + rest));
                        assert(e@ == suffix[0]@ && p2 == p + json_quoted(suffix[0]@).len());
                        lemma_tail_decomp(s@, p as int, json_quoted(suffix[0]@), "]"@ + rest);
                        assert(out@[k]@ == gs[k]@);
                        assert forall|k2: int| 0 <= k2 < gs.len() implies out@[k2]@
                            == gs[k2]@ by {
                            if k2 < k {
                                assert(out_prev[k2]@ == gs[k2]@);
                            }
                        }
                        lemma_strlist_text(gs, rest);
                        assert(s@.skip(pos as int).len() == strlist_text(gs, rest).len());
                    } else {
                        assert(s@.skip(p as int) == json_quoted(suffix[0]@) + (","@
                            + strlist_text(suffix.skip(1), rest)));
                        assert(p2 == p + json_quoted(suffix[0]@).len());
                        lemma_tail_decomp(
                            s@,
                            p as int,
                            json_quoted(suffix[0]@),
                            ","@ + strlist_text(suffix.skip(1), rest),
                        );
                        assert(s@[p2 as int] == (","@ + strlist_text(suffix.skip(1), rest))[0]);
                        reveal_strlit(",");
                    }
                }
            }
            return Option::Some((out, p2 + 1));
        }
        if s[p2] != ',' {
            proof {
                assert forall|gs: Seq<String>, rest: Seq<char>|
                    pos <= s@.len() && s@.skip(pos as int) == #[trigger] strlist_text(gs, rest)
                        implies false by {
                    let k = out_prev.len() as int;
                    let suffix = gs.skip(k);
                    if suffix.len() == 1 {
                        assert(s@.skip(p as int) == json_quoted(suffix[0]@) + ("]"@ + rest));
                        assert(p2 == p + json_quoted(suffix[0]@).len());
                        lemma_tail_decomp(s@, p as int, json_quoted(suffix[0]@), "]"@ + rest);
                        assert(s@.skip(p2 as int)[0] == s@[p2 as int]);
                        assert(s@[p2 as int] == ("]"@ + rest)[0]);
                        reveal_strlit("]");
                    } else {
                        assert(s@.skip(p as int) == json_quoted(suffix[0]@) + (","@
                            + strlist_text(suffix.skip(1), rest)));
                        assert(p2 == p + json_quoted(suffix[0]@).len());
                        lemma_tail_decomp(
                            s@,
                            p as int,
                            json_quoted(suffix[0]@),
                            ","@ + strlist_text(suffix.skip(1), rest),
                        );
                        assert(s@[p2 as int] == (","@ + strlist_text(suffix.skip(1), rest))[0]);
                        reveal_strlit(",");
                    }
                }
            }
            return Option::None;
        }
        proof {
            reveal_strlit(",");
            assert(s@.subrange(pos as int, p2 + 1) =~= enc_string_list(out@) + ","@);
            assert forall|gs: Seq<String>, rest: Seq<char>|
                pos <= s@.len() && s@.skip(pos as int) == #[trigger] strlist_text(gs, rest)
                    implies (out@.len() < gs.len() && (forall|k: int|
                    0 <= k < out@.len() ==> out@[k]@ == gs[k]@) && s@.skip(p2 + 1)
                    == strlist_text(gs.skip(out@.len() as int), rest)) by {
                let k = out_prev.len() as int;
                let suffix = gs.skip(k);
                if suffix.len() == 1 {
                    assert(s@.skip(p as int) == json_quoted(suffix[0]@) + ("]"@ + rest));
                    assert(p2 == p + json_quoted(suffix[0]@).len());
                    lemma_tail_decomp(s@, p as int, json_quoted(suffix[0]@), "]"@ + rest);
                    assert(s@.skip(p2 as int)[0] == s@[p2 as int]);
                    assert(s@[p2 as int] == ("]"@ + rest)[0]);
                    reveal_strlit("]");
                } else {
                    assert(s@.skip(p as int) == json_quoted(suffix[0]@) + (","@ + strlist_text(
                        suffix.skip(1),
                        rest,
                    )));
                    assert(e@ == suffix[0]@ && p2 == p + json_quoted(suffix[0]@).len());
                    lemma_tail_decomp(
                        s@,
                        p as int,
                        json_quoted(suffix[0]@),
                        ","@ + strlist_text(suffix.skip(1), rest),
                    );
                    reveal_strlit(",");
                    lemma_tail_decomp(s@, p2 as int, ","@, strlist_text(suffix.skip(1), rest));
                    assert(suffix.skip(1) =~= gs.skip(k + 1));
                    assert(out@[k]@ == gs[k]@);
                    assert forall|k2: int| 0 <= k2 < out@.len() implies out@[k2]@ == gs[k2]@ by {
                        if k2 < k {
                            assert(out_prev[k2]@ == gs[k2]@);
                        }
                    }
                }
            }
        }
        p = p2 + 1;
    }
}

/// Reads an authentication frame. When it refuses, no canonical
/// authentication frame has this text.
fn try_auth(s: &Vec<char>) -> (r: Option<ClientMessage>)
    ensures
        r matches Some(m) ==> s@ == enc_client(m),
        r is None ==> forall|m: ClientMessage|
            m matches ClientMessage::Auth { .. } ==> s@ != #[trigger] enc_client(m),
{
    let p0 = match eat(s, 0, "{\"type\":\"auth\",\"token\":") {
        Option::Some(p) => p,
        Option::None => {
            proof {
                assert forall|m: ClientMessage|
                    m matches ClientMessage::Auth { .. } implies s@ != enc_client(m) by {
                    match m {
                        ClientMessage::Auth { token } => {
                            if s@ == enc_client(m) {
                                assert(s@.subrange(
                                    0,
                                    "{\"type\":\"auth\",\"token\":"@.len() as int,
                                ) =~= "{\"type\":\"auth\",\"token\":"@);
                            }
                        },
                        _ => {},
                    }
                }
            }
            return Option::None;
        },
    };
    let (token, p1) = match p_string(s, p0) {
        Option::Some(v) => v,
        Option::None => {
            proof {
                assert forall|m: ClientMessage|
                    m matches ClientMessage::Auth { .. } implies s@ != enc_client(m) by {
                    match m {
                        ClientMessage::Auth { token } => {
                            if s@ == enc_client(m) {
                                assert(s@.skip(p0 as int) =~= json_quoted(token@) + "}"@);
                            }
                        },
                        _ => {},
                    }
                }
            }
            return Option::None;
        },
    };
    match eat(s, p1, "}") {
        Option::Some(p2) => {
            if p2 == s.len() {
                let m = ClientMessage::Auth { token };
                proof {
                    assert(s@ =~= ("{\"type\":\"auth\",\"token\":"@ + json_quoted(token@))
                        + "}"@);
                }
                return Option::Some(m);
            }
            proof {
                assert forall|m: ClientMessage|
                    m matches ClientMessage::Auth { .. } implies s@ != enc_client(m) by {
                    match m {
                        ClientMessage::Auth { token: tk } => {
                            if s@ == enc_client(m) {
                                assert(s@.skip(p0 as int) =~= json_quoted(tk@) + "}"@);
                                assert(p1 == p0 + json_quoted(tk@).len());
                                assert(p2 == s@.len());
                            }
                        },
                        _ => {},
                    }
                }
            }
            return Option::None;
        },
        Option::None => {
            proof {
                assert forall|m: ClientMessage|
                    m matches ClientMessage::Auth { .. } implies s@ != enc_client(m) by {
                    match m {
                        ClientMessage::Auth { token: tk } => {
                            if s@ == enc_client(m) {
                                assert(s@.skip(p0 as int) =~= json_quoted(tk@) + "}"@);
                                assert(p1 == p0 + json_quoted(tk@).len());
                                assert(s@.subrange(p1 as int, p1 + "}"@.len()) =~= "}"@);
                            }
                        },
                        _ => {},
                    }
                }
            }
            return Option::None;
        },
    }
}

/// Reads a ping frame. When it refuses, the text is not the canonical
/// ping frame.
fn try_ping(s: &Vec<char>) -> (r: Option<ClientMessage>)
    ensures
        r matches Some(m) ==> s@ == enc_client(m),
        r is None ==> s@ != enc_client(ClientMessage::Ping),
{
    match eat(s, 0, "{\"type\":\"ping\"}") {
        Option::Some(p) => {
            if p == s.len() {
                proof {
                    assert(s@ =~= "{\"type\":\"ping\"}"@);
                }
                return Option::Some(ClientMessage::Ping);
            }
            proof {
                if s@ == enc_client(ClientMessage::Ping) {
                    assert(p == s@.len());
                }
            }
            return Option::None;
        },
        Option::None => {
            proof {
                if s@ == enc_client(ClientMessage::Ping) {
                    assert(s@.subrange(0, "{\"type\":\"ping\"}"@.len() as int)
                        =~= "{\"type\":\"ping\"}"@);
                }
            }
            return Option::None;
        },
    }
}

/// Reads a key-request frame. When it refuses, no canonical key-request
/// frame has this text.
#[verifier::rlimit(100)]
#[verifier::spinoff_prover]
fn try_key_request(s: &Vec<char>) -> (r: Option<ClientMessage>)
    ensures
        r matches Some(m) ==> s@ == enc_client(m),
        r is None ==> forall|m: ClientMessage|
            m matches ClientMessage::KeyRequest { .. } ==> s@ != #[trigger] enc_client(m),
{
    let p0 = match eat(s, 0, "{\"type\":\"key_request\",\"group_name\":") {
        Option::Some(p) => p,
        Option::None => {
            proof {
                assert forall|m: ClientMessage|
                    m matches ClientMessage::KeyRequest { .. } implies s@ != enc_client(m) by {
                    match m {
                        ClientMessage::KeyRequest { group_name, public_key } => {
                            if s@ == enc_client(m) {
                                assert(s@.subrange(
                                    0,
                                    "{\"type\":\"key_request\",\"group_name\":"@.len() as int,
                                ) =~= "{\"type\":\"key_request\",\"group_name\":"@);
                            }
                        },
                        _ => {},
                    }
                }
            }
            return Option::None;
        },
    };
    let (group_name, p1) = match p_string(s, p0) {
        Option::Some(v) => v,
        Option::None => {
            proof {
                assert forall|m: ClientMessage|
                    m matches ClientMessage::KeyRequest { .. } implies s@ != enc_client(m) by {
                    match m {
                        ClientMessage::KeyRequest { group_name, public_key } => {
                            if s@ == enc_client(m) {
                                assert(s@.skip(p0 as int) =~= json_quoted(group_name@)
                                    + (",\"public_key\":"@ + (json_quoted(public_key@) + "}"@)));
                            }
                        },
                        _ => {},
                    }
                }
            }
            return Option::None;
        },
    };
    let p2 = match eat(s, p1, ",\"public_key\":") {
        Option::Some(p) => p,
        Option::None => {
            proof {
                assert forall|m: ClientMessage|
                    m matches ClientMessage::KeyRequest { .. } implies s@ != enc_client(m) by {
                    match m {
                        ClientMessage::KeyRequest { group_name: g, public_key: k } => {
                            if s@ == enc_client(m) {
                                assert(s@.skip(p0 as int) =~= json_quoted(g@)
                                    + (",\"public_key\":"@ + (json_quoted(k@) + "}"@)));
                                assert(p1 == p0 + json_quoted(g@).len());
                                assert(s@.subrange(p1 as int, p1 + ",\"public_key\":"@.len())
                                    =~= ",\"public_key\":"@);
                            }
                        },
                        _ => {},
                    }
                }
            }
            return Option::None;
        },
    };
    let (public_key, p3) = match p_string(s, p2) {
        Option::Some(v) => v,
        Option::None => {
            proof {
                assert forall|m: ClientMessage|
                    m matches ClientMessage::KeyRequest { .. } implies s@ != enc_client(m) by {
                    match m {
                        ClientMessage::KeyRequest { group_name: g, public_key: k } => {
                            if s@ == enc_client(m) {
                                assert(s@.skip(p0 as int) =~= json_quoted(g@)
                                    + (",\"public_key\":"@ + (json_quoted(k@) + "}"@)));
                                assert(p1 == p0 + json_quoted(g@).len());
                                assert(p2 == p1 + ",\"public_key\":"@.len());
                                assert(s@.skip(p2 as int) =~= json_quoted(k@) + "}"@);
                            }
                        },
                        _ => {},
                    }
                }
            }
            return Option::None;
        },
    };
    match eat(s, p3, "}") {
        Option::Some(p4) => {
            if p4 == s.len() {
                let m = ClientMessage::KeyRequest { group_name, public_key };
                proof {
                    assert(s@ =~= ((("{\"type\":\"key_request\",\"group_name\":"@ + json_quoted(
                        group_name@,
                    )) + ",\"public_key\":"@) + json_quoted(public_key@)) + "}"@);
                }
                return Option::Some(m);
            }
            proof {
                assert forall|m: ClientMessage|
                    m matches ClientMessage::KeyRequest { .. } implies s@ != enc_client(m) by {
                    match m {
                        ClientMessage::KeyRequest { group_name: g, public_key: k } => {
                            if s@ == enc_client(m) {
                                assert(s@.skip(p0 as int) =~= json_quoted(g@)
                                    + (",\"public_key\":"@ + (json_quoted(k@) + "}"@)));
                                assert(p1 == p0 + json_quoted(g@).len());
                                assert(p2 == p1 + ",\"public_key\":"@.len());
                                assert(s@.skip(p2 as int) =~= json_quoted(k@) + "}"@);
                                assert(p3 == p2 + json_quoted(k@).len());
                                assert(p4 == s@.len());
                            }
                        },
                        _ => {},
                    }
                }
            }
            return Option::None;
        },
        Option::None => {
            proof {
                assert forall|m: ClientMessage|
                    m matches ClientMessage::KeyRequest { .. } implies s@ != enc_client(m) by {
                    match m {
                        ClientMessage::KeyRequest { group_name: g, public_key: k } => {
                            if s@ == enc_client(m) {
                                assert(s@.skip(p0 as int) =~= json_quoted(g@)
                                    + (",\"public_key\":"@ + (json_quoted(k@) + "}"@)));
                                assert(p1 == p0 + json_quoted(g@).len());
                                assert(p2 == p1 + ",\"public_key\":"@.len());
                                assert(s@.skip(p2 as int) =~= json_quoted(k@) + "}"@);
                                assert(p3 == p2 + json_quoted(k@).len());
                                assert(s@.subrange(p3 as int, p3 + "}"@.len()) =~= "}"@);
                            }
                        },
                        _ => {},
                    }
                }
            }
            return Option::None;
        },
    }
}

/// Where a text is a canonical key-response frame, each piece of the frame
/// stands at the position the earlier pieces' lengths give.
#[verifier::rlimit(100)]
#[verifier::spinoff_prover]
proof fn lemma_key_response_shape(s: Seq<char>, g: Seq<char>, t: Seq<char>, w: Seq<char>)
    requires
        s == ((((("{\"type\":\"key_response\",\"group_name\":"@ + json_quoted(g))
            + ",\"target_machine_id\":"@) + json_quoted(t)) + ",\"wrapped_key\":"@) + json_quoted(
            w,
        )) + "}"@,
    ensures
        ({
            let l1 = "{\"type\":\"key_response\",\"group_name\":"@;
            let l2 = ",\"target_machine_id\":"@;
            let l3 = ",\"wrapped_key\":"@;
            let q0 = l1.len() as int;
            let q1 = q0 + json_quoted(g).len();
            let q2 = q1 + l2.len();
            let q3 = q2 + json_quoted(t).len();
            let q4 = q3 + l3.len();
            let q5 = q4 + json_quoted(w).len();
            &&& s.len() == q5 + "}"@.len()
            &&& s.subrange(0, q0) == l1
            &&& s.skip(q0) == json_quoted(g) + (l2 + (json_quoted(t) + (l3 + (json_quoted(w)
                + "}"@))))
            &&& s.subrange(q1, q2) == l2
            &&& s.skip(q2) == json_quoted(t) + (l3 + (json_quoted(w) + "}"@))
            &&& s.subrange(q3, q4) == l3
            &&& s.skip(q4) == json_quoted(w) + "}"@
            &&& s.subrange(q5, q5 + "}"@.len()) == "}"@
        }),
{
    let l1 = "{\"type\":\"key_response\",\"group_name\":"@;
    let l2 = ",\"target_machine_id\":"@;
    let l3 = ",\"wrapped_key\":"@;
    let q0 = l1.len() as int;
    let q1 = q0 + json_quoted(g).len();
    let q2 = q1 + l2.len();
    let q3 = q2 + json_quoted(t).len();
    let q4 = q3 + l3.len();
    let q5 = q4 + json_quoted(w).len();
    assert(s.subrange(0, q0) =~= l1);
    assert(s.skip(q0) =~= json_quoted(g) + (l2 + (json_quoted(t) + (l3 + (json_quoted(w)
        + "}"@)))));
    assert(s.subrange(q1, q2) =~= l2);
    assert(s.skip(q2) =~= json_quoted(t) + (l3 + (json_quoted(w) + "}"@)));
    assert(s.subrange(q3, q4) =~= l3);
    assert(s.skip(q4) =~= json_quoted(w) + "}"@);
    assert(s.subrange(q5, q5 + "}"@.len()) =~= "}"@);
}

/// Reads a key-response frame. When it refuses, no canonical key-response
/// frame has this text.
#[verifier::rlimit(100)]
#[verifier::spinoff_prover]
fn try_key_response(s: &Vec<char>) -> (r: Option<ClientMessage>)
    ensures
        r matches Some(m) ==> s@ == enc_client(m),
        r is None ==> forall|m: ClientMessage|
            m matches ClientMessage::KeyResponse { .. } ==> s@ != #[trigger] enc_client(m),
{
    let p0 = match eat(s, 0, "{\"type\":\"key_response\",\"group_name\":") {
        Option::Some(p) => p,
        Option::None => {
            proof {
                assert forall|m: ClientMessage|
                    m matches ClientMessage::KeyResponse { .. } implies s@ != enc_client(m) by {
                    match m {
                        ClientMessage::KeyResponse { group_name, target_machine_id, wrapped_key } => {
                            if s@ == enc_client(m) {
                                lemma_key_response_shape(
                                    s@,
                                    group_name@,
                                    target_machine_id@,
                                    wrapped_key@,
                                );
                            }
                        },
                        _ => {},
                    }
                }
            }
            return Option::None;
        },
    };
    let (group_name, p1) = match p_string(s, p0) {
        Option::Some(v) => v,
        Option::None => {
            proof {
                assert forall|m: ClientMessage|
                    m matches ClientMessage::KeyResponse { .. } implies s@ != enc_client(m) by {
                    match m {
                        ClientMessage::KeyResponse { group_name: g, target_machine_id: t, wrapped_key: w } => {
                            if s@ == enc_client(m) {
                                lemma_key_response_shape(s@, g@, t@, w@);
                            }
                        },
                        _ => {},
                    }
                }
            }
            return Option::None;
        },
    };
    let p2 = match eat(s, p1, ",\"target_machine_id\":") {
        Option::Some(p) => p,
        Option::None => {
            proof {
                assert forall|m: ClientMessage|
                    m matches ClientMessage::KeyResponse { .. } implies s@ != enc_client(m) by {
                    match m {
                        ClientMessage::KeyResponse { group_name: g, target_machine_id: t, wrapped_key: w } => {
                            if s@ == enc_client(m) {
                                lemma_key_response_shape(s@, g@, t@, w@);
                                assert(p1 == p0 + json_quoted(g@).len());
                            }
                        },
                        _ => {},
                    }
                }
            }
            return Option::None;
        },
    };
    let (target_machine_id, p3) = match p_string(s, p2) {
        Option::Some(v) => v,
        Option::None => {
            proof {
                assert forall|m: ClientMessage|
                    m matches ClientMessage::KeyResponse { .. } implies s@ != enc_client(m) by {
                    match m {
                        ClientMessage::KeyResponse { group_name: g, target_machine_id: t, wrapped_key: w } => {
                            if s@ == enc_client(m) {
                                lemma_key_response_shape(s@, g@, t@, w@);
                                assert(p1 == p0 + json_quoted(g@).len());
                            }
                        },
                        _ => {},
                    }
                }
            }
            return Option::None;
        },
    };
    let p4 = match eat(s, p3, ",\"wrapped_key\":") {
        Option::Some(p) => p,
        Option::None => {
            proof {
                assert forall|m: ClientMessage|
                    m matches ClientMessage::KeyResponse { .. } implies s@ != enc_client(m) by {
                    match m {
                        ClientMessage::KeyResponse { group_name: g, target_machine_id: t, wrapped_key: w } => {
                            if s@ == enc_client(m) {
                                lemma_key_response_shape(s@, g@, t@, w@);
                                assert(p1 == p0 + json_quoted(g@).len());
                                assert(p3 == p2 + json_quoted(t@).len());
                            }
                        },
                        _ => {},
                    }
                }
            }
            return Option::None;
        },
    };
    let (wrapped_key, p5) = match p_string(s, p4) {
        Option::Some(v) => v,
        Option::None => {
            proof {
                assert forall|m: ClientMessage|
                    m matches ClientMessage::KeyResponse { .. } implies s@ != enc_client(m) by {
                    match m {
                        ClientMessage::KeyResponse { group_name: g, target_machine_id: t, wrapped_key: w } => {
                            if s@ == enc_client(m) {
                                lemma_key_response_shape(s@, g@, t@, w@);
                                assert(p1 == p0 + json_quoted(g@).len());
                                assert(p3 == p2 + json_quoted(t@).len());
                            }
                        },
                        _ => {},
                    }
                }
            }
            return Option::None;
        },
    };
    match eat(s, p5, "}") {
        Option::Some(p6) => {
            if p6 == s.len() {
                let m = ClientMessage::KeyResponse { group_name, target_machine_id, wrapped_key };
                proof {
                    assert(s@ =~= ((((("{\"type\":\"key_response\",\"group_name\":"@
                        + json_quoted(group_name@)) + ",\"target_machine_id\":"@) + json_quoted(
                        target_machine_id@,
                    )) + ",\"wrapped_key\":"@) + json_quoted(wrapped_key@)) + "}"@);
                }
                return Option::Some(m);
            }
            proof {
                assert forall|m: ClientMessage|
                    m matches ClientMessage::KeyResponse { .. } implies s@ != enc_client(m) by {
                    match m {
                        ClientMessage::KeyResponse { group_name: g, target_machine_id: t, wrapped_key: w } => {
                            if s@ == enc_client(m) {
                                lemma_key_response_shape(s@, g@, t@, w@);
                                assert(p1 == p0 + json_quoted(g@).len());
                                assert(p3 == p2 + json_quoted(t@).len());
                                assert(p5 == p4 + json_quoted(w@).len());
                                assert(p6 == s@.len());
                            }
                        },
                        _ => {},
                    }
                }
            }
            return Option::None;
        },
        Option::None => {
            proof {
                assert forall|m: ClientMessage|
                    m matches ClientMessage::KeyResponse { .. } implies s@ != enc_client(m) by {
                    match m {
                        ClientMessage::KeyResponse { group_name: g, target_machine_id: t, wrapped_key: w } => {
                            if s@ == enc_client(m) {
                                lemma_key_response_shape(s@, g@, t@, w@);
                                assert(p1 == p0 + json_quoted(g@).len());
                                assert(p3 == p2 + json_quoted(t@).len());
                                assert(p5 == p4 + json_quoted(w@).len());
                            }
                        },
                        _ => {},
                    }
                }
            }
            return Option::None;
        },
    }
}


/// Where a text is a canonical history-query frame, each piece stands at
/// the position the earlier pieces' lengths give.
#[verifier::rlimit(100)]
#[verifier::spinoff_prover]
proof fn lemma_history_query_shape(s: Seq<char>, a: int, g: Seq<char>, l: int)
    requires
        s == "{\"type\":\"history_query\",\"after_timestamp\":"@ + crate::strutil::dec_i64(a)
            + ",\"group_name\":"@ + json_quoted(g) + ",\"limit\":"@ + crate::strutil::dec_i64(l)
            + "}"@,
    ensures
        ({
            let l1 = "{\"type\":\"history_query\",\"after_timestamp\":"@;
            let l2 = ",\"group_name\":"@;
            let l3 = ",\"limit\":"@;
            let da = crate::strutil::dec_i64(a);
            let dl = crate::strutil::dec_i64(l);
            let b0 = l1.len() as int;
            let b1 = b0 + da.len();
            let b2 = b1 + l2.len();
            let b3 = b2 + json_quoted(g).len();
            let b4 = b3 + l3.len();
            let b5 = b4 + dl.len();
            let r1 = l2 + (json_quoted(g) + (l3 + (dl + "}"@)));
            let r2 = dl + "}"@;
            &&& s.len() == b5 + "}"@.len()
            &&& s.subrange(0, b0) == l1
            &&& s.skip(b0) == da + r1
            &&& r1.len() > 0 && r1[0] == ','
            &&& s.subrange(b1, b2) == l2
            &&& s.skip(b2) == json_quoted(g) + (l3 + r2)
            &&& s.subrange(b3, b4) == l3
            &&& s.skip(b4) == dl + "}"@
            &&& "}"@.len() > 0 && "}"@[0] == '}'
            &&& s.subrange(b5, b5 + "}"@.len()) == "}"@
        }),
{
    let l1 = "{\"type\":\"history_query\",\"after_timestamp\":"@;
    let l2 = ",\"group_name\":"@;
    let l3 = ",\"limit\":"@;
    let da = crate::strutil::dec_i64(a);
    let dl = crate::strutil::dec_i64(l);
    let b0 = l1.len() as int;
    let b1 = b0 + da.len();
    let b2 = b1 + l2.len();
    let b3 = b2 + json_quoted(g).len();
    let b4 = b3 + l3.len();
    let b5 = b4 + dl.len();
    let r1 = l2 + (json_quoted(g) + (l3 + (dl + "}"@)));
    assert(s.skip(0) =~= s);
    assert(s =~= l1 + (da + r1));
    lemma_tail_decomp(s, 0, l1, da + r1);
    lemma_tail_decomp(s, b0, da, r1);
    lemma_tail_decomp(s, b1, l2, json_quoted(g) + (l3 + (dl + "}"@)));
    lemma_tail_decomp(s, b2, json_quoted(g), l3 + (dl + "}"@));
    lemma_tail_decomp(s, b3, l3, dl + "}"@);
    lemma_tail_decomp(s, b4, dl, "}"@);
    assert(s.subrange(b5, b5 + "}"@.len()) =~= s.skip(b5));
    reveal_strlit(",\"group_name\":");
    reveal_strlit("}");
    assert(r1[0] == l2[0]);
}

/// Reads a history-query frame. When it refuses, no canonical
/// history-query frame has this text.
#[verifier::rlimit(100)]
#[verifier::spinoff_prover]
fn try_history_query(s: &Vec<char>) -> (r: Option<ClientMessage>)
    ensures
        r matches Some(m) ==> s@ == enc_client(m),
        r is None ==> forall|m: ClientMessage|
            m matches ClientMessage::HistoryQuery { .. } ==> s@ != #[trigger] enc_client(m),
{
    let p0 = match eat(s, 0, "{\"type\":\"history_query\",\"after_timestamp\":") {
        Option::Some(p) => p,
        Option::None => {
            proof {
                assert forall|m: ClientMessage|
                    m matches ClientMessage::HistoryQuery { .. } implies s@ != enc_client(m) by {
                    match m {
                        ClientMessage::HistoryQuery { after_timestamp, group_name, limit } => {
                            if s@ == enc_client(m) {
                                lemma_history_query_shape(
                                    s@,
                                    after_timestamp as int,
                                    group_name@,
                                    limit as int,
                                );
                            }
                        },
                        _ => {},
                    }
                }
            }
            return Option::None;
        },
    };
    let (after_timestamp, p1) = match p_num(s, p0) {
        Option::Some(v) => v,
        Option::None => {
            proof {
                assert forall|m: ClientMessage|
                    m matches ClientMessage::HistoryQuery { .. } implies s@ != enc_client(m) by {
                    match m {
                        ClientMessage::HistoryQuery { after_timestamp: a, group_name: g, limit: l } => {
                            if s@ == enc_client(m) {
                                lemma_history_query_shape(s@, a as int, g@, l as int);
                            }
                        },
                        _ => {},
                    }
                }
            }
            return Option::None;
        },
    };
    let p2 = match eat(s, p1, ",\"group_name\":") {
        Option::Some(p) => p,
        Option::None => {
            proof {
                assert forall|m: ClientMessage|
                    m matches ClientMessage::HistoryQuery { .. } implies s@ != enc_client(m) by {
                    match m {
                        ClientMessage::HistoryQuery { after_timestamp: a, group_name: g, limit: l } => {
                            if s@ == enc_client(m) {
                                lemma_history_query_shape(s@, a as int, g@, l as int);
                                assert(p1 == p0 + crate::strutil::dec_i64(a as int).len());
                            }
                        },
                        _ => {},
                    }
                }
            }
            return Option::None;
        },
    };
    let (group_name, p3) = match p_string(s, p2) {
        Option::Some(v) => v,
        Option::None => {
            proof {
                assert forall|m: ClientMessage|
                    m matches ClientMessage::HistoryQuery { .. } implies s@ != enc_client(m) by {
                    match m {
                        ClientMessage::HistoryQuery { after_timestamp: a, group_name: g, limit: l } => {
                            if s@ == enc_client(m) {
                                lemma_history_query_shape(s@, a as int, g@, l as int);
                                assert(p1 == p0 + crate::strutil::dec_i64(a as int).len());
                            }
                        },
                        _ => {},
                    }
                }
            }
            return Option::None;
        },
    };
    let p4 = match eat(s, p3, ",\"limit\":") {
        Option::Some(p) => p,
        Option::None => {
            proof {
                assert forall|m: ClientMessage|
                    m matches ClientMessage::HistoryQuery { .. } implies s@ != enc_client(m) by {
                    match m {
                        ClientMessage::HistoryQuery { after_timestamp: a, group_name: g, limit: l } => {
                            if s@ == enc_client(m) {
                                lemma_history_query_shape(s@, a as int, g@, l as int);
                                assert(p1 == p0 + crate::strutil::dec_i64(a as int).len());
                                assert(p3 == p2 + json_quoted(g@).len());
                            }
                        },
                        _ => {},
                    }
                }
            }
            return Option::None;
        },
    };
    let (limit, p5) = match p_num(s, p4) {
        Option::Some(v) => v,
        Option::None => {
            proof {
                assert forall|m: ClientMessage|
                    m matches ClientMessage::HistoryQuery { .. } implies s@ != enc_client(m) by {
                    match m {
                        ClientMessage::HistoryQuery { after_timestamp: a, group_name: g, limit: l } => {
                            if s@ == enc_client(m) {
                                lemma_history_query_shape(s@, a as int, g@, l as int);
                                assert(p1 == p0 + crate::strutil::dec_i64(a as int).len());
                                assert(p3 == p2 + json_quoted(g@).len());
                            }
                        },
                        _ => {},
                    }
                }
            }
            return Option::None;
        },
    };
    match eat(s, p5, "}") {
        Option::Some(p6) => {
            if p6 == s.len() {
                let m = ClientMessage::HistoryQuery { after_timestamp, group_name, limit };
                proof {
                    assert(s@ =~= "{\"type\":\"history_query\",\"after_timestamp\":"@
                        + crate::strutil::dec_i64(after_timestamp as int) + ",\"group_name\":"@
                        + json_quoted(group_name@) + ",\"limit\":"@ + crate::strutil::dec_i64(
                        limit as int,
                    ) + "}"@);
                }
                return Option::Some(m);
            }
            proof {
                assert forall|m: ClientMessage|
                    m matches ClientMessage::HistoryQuery { .. } implies s@ != enc_client(m) by {
                    match m {
                        ClientMessage::HistoryQuery { after_timestamp: a, group_name: g, limit: l } => {
                            if s@ == enc_client(m) {
                                lemma_history_query_shape(s@, a as int, g@, l as int);
                                assert(p1 == p0 + crate::strutil::dec_i64(a as int).len());
                                assert(p3 == p2 + json_quoted(g@).len());
                                assert(p5 == p4 + crate::strutil::dec_i64(l as int).len());
                                assert(p6 == s@.len());
                            }
                        },
                        _ => {},
                    }
                }
            }
            return Option::None;
        },
        Option::None => {
            proof {
                assert forall|m: ClientMessage|
                    m matches ClientMessage::HistoryQuery { .. } implies s@ != enc_client(m) by {
                    match m {
                        ClientMessage::HistoryQuery { after_timestamp: a, group_name: g, limit: l } => {
                            if s@ == enc_client(m) {
                                lemma_history_query_shape(s@, a as int, g@, l as int);
                                assert(p1 == p0 + crate::strutil::dec_i64(a as int).len());
                                assert(p3 == p2 + json_quoted(g@).len());
                                assert(p5 == p4 + crate::strutil::dec_i64(l as int).len());
                            }
                        },
                        _ => {},
                    }
                }
            }
            return Option::None;
        },
    }
}

fn parse_client(s: &Vec<char>) -> (r: Option<ClientMessage>)
    ensures
        forall|m: ClientMessage|
            ((m matches ClientMessage::Auth { .. }) || m == ClientMessage::Ping || (m matches
            ClientMessage::KeyRequest { .. }) || (m matches ClientMessage::KeyResponse { .. })
                || (m matches ClientMessage::HistoryQuery { .. })) && s@ == #[trigger] enc_client(
                m,
            ) ==> (r matches Some(p) && s@ == enc_client(p)),
{
    match try_auth(s) {
        Option::Some(m) => {
            return Option::Some(m);
        },
        Option::None => {},
    }
    match try_ping(s) {
        Option::Some(m) => {
            return Option::Some(m);
        },
        Option::None => {},
    }
    match try_key_request(s) {
        Option::Some(m) => {
            return Option::Some(m);
        },
        Option::None => {},
    }
    match try_key_response(s) {
        Option::Some(m) => {
            return Option::Some(m);
        },
        Option::None => {},
    }
    match try_history_query(s) {
        Option::Some(m) => {
            return Option::Some(m);
        },
        Option::None => {},
    }
    match eat(s, 0, "{\"type\":\"history_batch\",\"encrypted\":true,\"entries\":[") {
        Option::Some(p) => {
            let (entries, p) = match p_enc_entry_array(s, p) {
                Option::Some(v) => v,
                Option::None => {
                    return Option::None;
                },
            };
            if eat(s, p, "}").is_some() {
                return Option::Some(ClientMessage::HistoryBatchEncrypted { entries });
            }
            return Option::None;
        },
        Option::None => {},
    }
    match eat(s, 0, "{\"type\":\"history_batch\",\"entries\":[") {
        Option::Some(p) => {
            let (entries, p) = match p_entry_array(s, p) {
                Option::Some(v) => v,
                Option::None => {
                    return Option::None;
                },
            };
            if eat(s, p, "}").is_some() {
                return Option::Some(ClientMessage::HistoryBatch { entries });
            }
            return Option::None;
        },
        Option::None => {},
    }
    Option::None
}




/// Reads one decimal integer at `pos` by taking the run of sign and digit
/// characters and parsing it whole. Every canonical decimal text followed
/// by a non-numeric character is accepted and gives back its value.
#[verifier::rlimit(100)]
#[verifier::spinoff_prover]
fn p_num(s: &Vec<char>, pos: usize) -> (r: Option<(i64, usize)>)
    ensures
        r matches Some(p) ==> pos <= p.1 <= s@.len() && s@.subrange(pos as int, p.1 as int)
            == crate::strutil::dec_i64(p.0 as int),
        forall|n: i64, rest: Seq<char>|
            pos <= s@.len() && s@.skip(pos as int) == #[trigger] (crate::strutil::dec_i64(
                n as int,
            ) + rest) && rest.len() > 0 && !('0' <= rest[0] && rest[0] <= '9') && rest[0] != '-'
                ==> (r matches Some(p) && p.0 == n && p.1 == pos + crate::strutil::dec_i64(
                n as int,
            ).len()),
{
    if pos > s.len() {
        return Option::None;
    }
    let mut j: usize = pos;
    let mut sub: Vec<char> = Vec::new();
    while j < s.len() && (s[j] == '-' || ('0' <= s[j] && s[j] <= '9'))
        invariant
            pos <= j <= s@.len(),
            sub@ == s@.subrange(pos as int, j as int),
            forall|k: int| pos <= k < j ==> (s@[k] == '-' || ('0' <= #[trigger] s@[k] && s@[k]
                <= '9')),
        decreases s@.len() - j,
    {
        sub.push(s[j]);
        proof {
            assert(sub@ =~= s@.subrange(pos as int, j + 1));
        }
        j += 1;
    }
    let text = crate::strutil::chars_to_string(&sub);
    proof {
        assert forall|n: i64, rest: Seq<char>|
            pos <= s@.len() && s@.skip(pos as int) == #[trigger] (crate::strutil::dec_i64(
                n as int,
            ) + rest) && rest.len() > 0 && !('0' <= rest[0] && rest[0] <= '9') && rest[0] != '-'
                implies (text@ == crate::strutil::dec_i64(n as int) && j == pos
                + crate::strutil::dec_i64(n as int).len()) by {
            let t = crate::strutil::dec_i64(n as int);
            crate::strutil::lemma_dec_i64_shape(t, n as int);
            lemma_tail_decomp(s@, pos as int, t, rest);
            assert(s@[pos + t.len()] == rest[0]);
            assert forall|k: int| pos <= k < pos + t.len() implies (s@[k] == '-' || ('0'
                <= #[trigger] s@[k] && s@[k] <= '9')) by {
                assert(s@[k] == t[k - pos]);
                if (n as int) < 0 && k == pos {
                    assert(t[0] == '-');
                }
            }
            if j < pos + t.len() {
                assert(j < s@.len());
                assert(s@[j as int] == '-' || ('0' <= s@[j as int] && s@[j as int] <= '9'));
                assert(false);
            }
            if j > pos + t.len() {
                assert(s@[pos + t.len()] == '-' || ('0' <= s@[pos + t.len()] && s@[pos + t.len()]
                    <= '9'));
                assert(false);
            }
            assert(text@ == s@.subrange(pos as int, pos + t.len()));
        }
    }
    match crate::crypto::parse_decimal(text.as_str()) {
        Option::Some(v) => Option::Some((v, j)),
        Option::None => Option::None,
    }
}

/// The wire shape of a JSON array of exactly five string literals.
pub(crate) open spec fn five_quoted_text(
    q1: Seq<char>,
    q2: Seq<char>,
    q3: Seq<char>,
    q4: Seq<char>,
    q5: Seq<char>,
) -> Seq<char> {
    "["@ + (json_quoted(q1) + (","@ + (json_quoted(q2) + (","@ + (json_quoted(q3) + (","@
        + (json_quoted(q4) + (","@ + (json_quoted(q5) + "]"@)))))))))
}


/// Splitting a suffix of a text at the length of its first piece.
proof fn lemma_tail_decomp(s: Seq<char>, i: int, a: Seq<char>, rest: Seq<char>)
    requires
        0 <= i <= s.len(),
        s.skip(i) == a + rest,
    ensures
        i + a.len() <= s.len(),
        s.subrange(i, i + a.len()) == a,
        s.skip(i + a.len()) == rest,
{
    assert(s.skip(i).len() == s.len() - i);
    assert(s.subrange(i, i + a.len()) =~= a);
    assert forall|k: int| 0 <= k < rest.len() implies s.skip(i + a.len())[k] == rest[k] by {
        assert(rest[k] == (a + rest)[a.len() + k]);
        assert(s.skip(i)[a.len() + k] == s[i + a.len() + k]);
    }
    assert(s.skip(i + a.len()) =~= rest);
}

/// Where a text is a five-string array, each piece stands at the position
/// the earlier pieces' lengths give.
#[verifier::rlimit(100)]
#[verifier::spinoff_prover]
proof fn lemma_five_quoted_shape(
    s: Seq<char>,
    q1: Seq<char>,
    q2: Seq<char>,
    q3: Seq<char>,
    q4: Seq<char>,
    q5: Seq<char>,
)
    requires
        s == five_quoted_text(q1, q2, q3, q4, q5),
    ensures
        ({
            let b0 = "["@.len() as int;
            let b1 = b0 + json_quoted(q1).len();
            let b2 = b1 + ","@.len();
            let b3 = b2 + json_quoted(q2).len();
            let b4 = b3 + ","@.len();
            let b5 = b4 + json_quoted(q3).len();
            let b6 = b5 + ","@.len();
            let b7 = b6 + json_quoted(q4).len();
            let b8 = b7 + ","@.len();
            let b9 = b8 + json_quoted(q5).len();
            &&& s.len() == b9 + "]"@.len()
            &&& s.subrange(0, b0) == "["@
            &&& s.skip(b0) == json_quoted(q1) + (","@ + (json_quoted(q2) + (","@ + (json_quoted(
                q3,
            ) + (","@ + (json_quoted(q4) + (","@ + (json_quoted(q5) + "]"@))))))))
            &&& s.subrange(b1, b2) == ","@
            &&& s.skip(b2) == json_quoted(q2) + (","@ + (json_quoted(q3) + (","@ + (json_quoted(
                q4,
            ) + (","@ + (json_quoted(q5) + "]"@))))))
            &&& s.subrange(b3, b4) == ","@
            &&& s.skip(b4) == json_quoted(q3) + (","@ + (json_quoted(q4) + (","@ + (json_quoted(
                q5,
            ) + "]"@))))
            &&& s.subrange(b5, b6) == ","@
            &&& s.skip(b6) == json_quoted(q4) + (","@ + (json_quoted(q5) + "]"@))
            &&& s.subrange(b7, b8) == ","@
            &&& s.skip(b8) == json_quoted(q5) + "]"@
            &&& s.subrange(b9, b9 + "]"@.len()) == "]"@
        }),
{
    let b0 = "["@.len() as int;
    let b1 = b0 + json_quoted(q1).len();
    let b2 = b1 + ","@.len();
    let b3 = b2 + json_quoted(q2).len();
    let b4 = b3 + ","@.len();
    let b5 = b4 + json_quoted(q3).len();
    let b6 = b5 + ","@.len();
    let b7 = b6 + json_quoted(q4).len();
    let b8 = b7 + ","@.len();
    let b9 = b8 + json_quoted(q5).len();
    assert(s.skip(0) =~= s);
    lemma_tail_decomp(
        s,
        0,
        "["@,
        json_quoted(q1) + (","@ + (json_quoted(q2) + (","@ + (json_quoted(q3) + (","@
            + (json_quoted(q4) + (","@ + (json_quoted(q5) + "]"@)))))))),
    );
    lemma_tail_decomp(
        s,
        b0,
        json_quoted(q1),
        ","@ + (json_quoted(q2) + (","@ + (json_quoted(q3) + (","@ + (json_quoted(q4) + (","@
            + (json_quoted(q5) + "]"@))))))),
    );
    lemma_tail_decomp(
        s,
        b1,
        ","@,
        json_quoted(q2) + (","@ + (json_quoted(q3) + (","@ + (json_quoted(q4) + (","@
            + (json_quoted(q5) + "]"@)))))),
    );
    lemma_tail_decomp(
        s,
        b2,
        json_quoted(q2),
        ","@ + (json_quoted(q3) + (","@ + (json_quoted(q4) + (","@ + (json_quoted(q5)
            + "]"@))))),
    );
    lemma_tail_decomp(
        s,
        b3,
        ","@,
        json_quoted(q3) + (","@ + (json_quoted(q4) + (","@ + (json_quoted(q5) + "]"@)))),
    );
    lemma_tail_decomp(
        s,
        b4,
        json_quoted(q3),
        ","@ + (json_quoted(q4) + (","@ + (json_quoted(q5) + "]"@))),
    );
    lemma_tail_decomp(s, b5, ","@, json_quoted(q4) + (","@ + (json_quoted(q5) + "]"@)));
    lemma_tail_decomp(s, b6, json_quoted(q4), ","@ + (json_quoted(q5) + "]"@));
    lemma_tail_decomp(s, b7, ","@, json_quoted(q5) + "]"@);
    lemma_tail_decomp(s, b8, json_quoted(q5), "]"@);
    assert(s.skip(b9) == "]"@);
    assert(s.subrange(b9, b9 + "]"@.len()) =~= s.skip(b9));
}

/// Reads a JSON array of exactly five string literals in the canonical
/// form this codec emits. Every canonical five-string array is accepted,
/// and its five strings are returned in order.
#[verifier::rlimit(100)]
#[verifier::spinoff_prover]
pub(crate) fn p_five_quoted(s: &Vec<char>) -> (r: Option<Vec<String>>)
    ensures
        r matches Some(v) ==> v@.len() == 5,
        forall|q1: Seq<char>, q2: Seq<char>, q3: Seq<char>, q4: Seq<char>, q5: Seq<char>|
            s@ == #[trigger] five_quoted_text(q1, q2, q3, q4, q5) ==> (r matches Some(v)
                && v@[0]@ == q1 && v@[1]@ == q2 && v@[2]@ == q3 && v@[3]@ == q4 && v@[4]@ == q5),
{
    let p0 = match eat(s, 0, "[") {
        Option::Some(p) => p,
        Option::None => {
            proof {
                assert forall|q1: Seq<char>, q2: Seq<char>, q3: Seq<char>, q4: Seq<char>, q5: Seq<
                    char,
                >| s@ != #[trigger] five_quoted_text(q1, q2, q3, q4, q5) by {
                    if s@ == five_quoted_text(q1, q2, q3, q4, q5) {
                        lemma_five_quoted_shape(s@, q1, q2, q3, q4, q5);
                    }
                }
            }
            return Option::None;
        },
    };
    let (v1, p1) = match p_string(s, p0) {
        Option::Some(v) => v,
        Option::None => {
            proof {
                assert forall|q1: Seq<char>, q2: Seq<char>, q3: Seq<char>, q4: Seq<char>, q5: Seq<
                    char,
                >| s@ != #[trigger] five_quoted_text(q1, q2, q3, q4, q5) by {
                    if s@ == five_quoted_text(q1, q2, q3, q4, q5) {
                        lemma_five_quoted_shape(s@, q1, q2, q3, q4, q5);
                    }
                }
            }
            return Option::None;
        },
    };
    let p2 = match eat(s, p1, ",") {
        Option::Some(p) => p,
        Option::None => {
            proof {
                assert forall|q1: Seq<char>, q2: Seq<char>, q3: Seq<char>, q4: Seq<char>, q5: Seq<
                    char,
                >| s@ != #[trigger] five_quoted_text(q1, q2, q3, q4, q5) by {
                    if s@ == five_quoted_text(q1, q2, q3, q4, q5) {
                        lemma_five_quoted_shape(s@, q1, q2, q3, q4, q5);
                        assert(p1 == p0 + json_quoted(q1).len());
                    }
                }
            }
            return Option::None;
        },
    };
    let (v2, p3) = match p_string(s, p2) {
        Option::Some(v) => v,
        Option::None => {
            proof {
                assert forall|q1: Seq<char>, q2: Seq<char>, q3: Seq<char>, q4: Seq<char>, q5: Seq<
                    char,
                >| s@ != #[trigger] five_quoted_text(q1, q2, q3, q4, q5) by {
                    if s@ == five_quoted_text(q1, q2, q3, q4, q5) {
                        lemma_five_quoted_shape(s@, q1, q2, q3, q4, q5);
                        assert(p1 == p0 + json_quoted(q1).len());
                    }
                }
            }
            return Option::None;
        },
    };
    let p4 = match eat(s, p3, ",") {
        Option::Some(p) => p,
        Option::None => {
            proof {
                assert forall|q1: Seq<char>, q2: Seq<char>, q3: Seq<char>, q4: Seq<char>, q5: Seq<
                    char,
                >| s@ != #[trigger] five_quoted_text(q1, q2, q3, q4, q5) by {
                    if s@ == five_quoted_text(q1, q2, q3, q4, q5) {
                        lemma_five_quoted_shape(s@, q1, q2, q3, q4, q5);
                        assert(p1 == p0 + json_quoted(q1).len());
                        assert(p3 == p2 + json_quoted(q2).len());
                    }
                }
            }
            return Option::None;
        },
    };
    let (v3, p5) = match p_string(s, p4) {
        Option::Some(v) => v,
        Option::None => {
            proof {
                assert forall|q1: Seq<char>, q2: Seq<char>, q3: Seq<char>, q4: Seq<char>, q5: Seq<
                    char,
                >| s@ != #[trigger] five_quoted_text(q1, q2, q3, q4, q5) by {
                    if s@ == five_quoted_text(q1, q2, q3, q4, q5) {
                        lemma_five_quoted_shape(s@, q1, q2, q3, q4, q5);
                        assert(p1 == p0 + json_quoted(q1).len());
                        assert(p3 == p2 + json_quoted(q2).len());
                    }
                }
            }
            return Option::None;
        },
    };
    let p6 = match eat(s, p5, ",") {
        Option::Some(p) => p,
        Option::None => {
            proof {
                assert forall|q1: Seq<char>, q2: Seq<char>, q3: Seq<char>, q4: Seq<char>, q5: Seq<
                    char,
                >| s@ != #[trigger] five_quoted_text(q1, q2, q3, q4, q5) by {
                    if s@ == five_quoted_text(q1, q2, q3, q4, q5) {
                        lemma_five_quoted_shape(s@, q1, q2, q3, q4, q5);
                        assert(p1 == p0 + json_quoted(q1).len());
                        assert(p3 == p2 + json_quoted(q2).len());
                        assert(p5 == p4 + json_quoted(q3).len());
                    }
                }
            }
            return Option::None;
        },
    };
    let (v4, p7) = match p_string(s, p6) {
        Option::Some(v) => v,
        Option::None => {
            proof {
                assert forall|q1: Seq<char>, q2: Seq<char>, q3: Seq<char>, q4: Seq<char>, q5: Seq<
                    char,
                >| s@ != #[trigger] five_quoted_text(q1, q2, q3, q4, q5) by {
                    if s@ == five_quoted_text(q1, q2, q3, q4, q5) {
                        lemma_five_quoted_shape(s@, q1, q2, q3, q4, q5);
                        assert(p1 == p0 + json_quoted(q1).len());
                        assert(p3 == p2 + json_quoted(q2).len());
                        assert(p5 == p4 + json_quoted(q3).len());
                    }
                }
            }
            return Option::None;
        },
    };
    let p8 = match eat(s, p7, ",") {
        Option::Some(p) => p,
        Option::None => {
            proof {
                assert forall|q1: Seq<char>, q2: Seq<char>, q3: Seq<char>, q4: Seq<char>, q5: Seq<
                    char,
                >| s@ != #[trigger] five_quoted_text(q1, q2, q3, q4, q5) by {
                    if s@ == five_quoted_text(q1, q2, q3, q4, q5) {
                        lemma_five_quoted_shape(s@, q1, q2, q3, q4, q5);
                        assert(p1 == p0 + json_quoted(q1).len());
                        assert(p3 == p2 + json_quoted(q2).len());
                        assert(p5 == p4 + json_quoted(q3).len());
                        assert(p7 == p6 + json_quoted(q4).len());
                    }
                }
            }
            return Option::None;
        },
    };
    let (v5, p9) = match p_string(s, p8) {
        Option::Some(v) => v,
        Option::None => {
            proof {
                assert forall|q1: Seq<char>, q2: Seq<char>, q3: Seq<char>, q4: Seq<char>, q5: Seq<
                    char,
                >| s@ != #[trigger] five_quoted_text(q1, q2, q3, q4, q5) by {
                    if s@ == five_quoted_text(q1, q2, q3, q4, q5) {
                        lemma_five_quoted_shape(s@, q1, q2, q3, q4, q5);
                        assert(p1 == p0 + json_quoted(q1).len());
                        assert(p3 == p2 + json_quoted(q2).len());
                        assert(p5 == p4 + json_quoted(q3).len());
                        assert(p7 == p6 + json_quoted(q4).len());
                    }
                }
            }
            return Option::None;
        },
    };
    match eat(s, p9, "]") {
        Option::Some(p10) => {
            if p10 == s.len() {
                let mut out: Vec<String> = Vec::new();
                out.push(v1);
                out.push(v2);
                out.push(v3);
                out.push(v4);
                out.push(v5);
                proof {
                    assert forall|
                        q1: Seq<char>,
                        q2: Seq<char>,
                        q3: Seq<char>,
                        q4: Seq<char>,
                        q5: Seq<char>,
                    |
                        s@ == #[trigger] five_quoted_text(q1, q2, q3, q4, q5) implies (out@[0]@
                        == q1 && out@[1]@ == q2 && out@[2]@ == q3 && out@[3]@ == q4 && out@[4]@
                        == q5) by {
                        lemma_five_quoted_shape(s@, q1, q2, q3, q4, q5);
                        assert(p1 == p0 + json_quoted(q1).len());
                        assert(p3 == p2 + json_quoted(q2).len());
                        assert(p5 == p4 + json_quoted(q3).len());
                        assert(p7 == p6 + json_quoted(q4).len());
                    }
                }
                return Option::Some(out);
            }
            proof {
                assert forall|q1: Seq<char>, q2: Seq<char>, q3: Seq<char>, q4: Seq<char>, q5: Seq<
                    char,
                >| s@ != #[trigger] five_quoted_text(q1, q2, q3, q4, q5) by {
                    if s@ == five_quoted_text(q1, q2, q3, q4, q5) {
                        lemma_five_quoted_shape(s@, q1, q2, q3, q4, q5);
                        assert(p1 == p0 + json_quoted(q1).len());
                        assert(p3 == p2 + json_quoted(q2).len());
                        assert(p5 == p4 + json_quoted(q3).len());
                        assert(p7 == p6 + json_quoted(q4).len());
                        assert(p9 == p8 + json_quoted(q5).len());
                        assert(p10 == s@.len());
                    }
                }
            }
            return Option::None;
        },
        Option::None => {
            proof {
                assert forall|q1: Seq<char>, q2: Seq<char>, q3: Seq<char>, q4: Seq<char>, q5: Seq<
                    char,
                >| s@ != #[trigger] five_quoted_text(q1, q2, q3, q4, q5) by {
                    if s@ == five_quoted_text(q1, q2, q3, q4, q5) {
                        lemma_five_quoted_shape(s@, q1, q2, q3, q4, q5);
                        assert(p1 == p0 + json_quoted(q1).len());
                        assert(p3 == p2 + json_quoted(q2).len());
                        assert(p5 == p4 + json_quoted(q3).len());
                        assert(p7 == p6 + json_quoted(q4).len());
                        assert(p9 == p8 + json_quoted(q5).len());
                        assert(s@.subrange(p9 as int, p9 + "]"@.len()) =~= "]"@);
                    }
                }
            }
            return Option::None;
        },
    }
}

/// The wire shape of a frame that carries one string field between two
/// fixed pieces of text.
pub(crate) open spec fn one_string_frame(l1: Seq<char>, a: Seq<char>, tail: Seq<char>) -> Seq<
    char,
> {
    (l1 + json_quoted(a)) + tail
}

/// The wire shape of a frame that carries three string fields between four
/// fixed pieces of text.
pub(crate) open spec fn three_string_frame(
    l1: Seq<char>,
    a: Seq<char>,
    l2: Seq<char>,
    b: Seq<char>,
    l3: Seq<char>,
    c: Seq<char>,
    tail: Seq<char>,
) -> Seq<char> {
    (((((l1 + json_quoted(a)) + l2) + json_quoted(b)) + l3) + json_quoted(c)) + tail
}

/// Where a text is a three-string frame, each piece of the frame stands at
/// the position the earlier pieces' lengths give.
#[verifier::rlimit(100)]
#[verifier::spinoff_prover]
proof fn lemma_three_string_frame_shape(
    s: Seq<char>,
    l1: Seq<char>,
    a: Seq<char>,
    l2: Seq<char>,
    b: Seq<char>,
    l3: Seq<char>,
    c: Seq<char>,
    tail: Seq<char>,
)
    requires
        s == three_string_frame(l1, a, l2, b, l3, c, tail),
    ensures
        ({
            let q0 = l1.len() as int;
            let q1 = q0 + json_quoted(a).len();
            let q2 = q1 + l2.len();
            let q3 = q2 + json_quoted(b).len();
            let q4 = q3 + l3.len();
            let q5 = q4 + json_quoted(c).len();
            &&& s.len() == q5 + tail.len()
            &&& s.subrange(0, q0) == l1
            &&& s.skip(q0) == json_quoted(a) + (l2 + (json_quoted(b) + (l3 + (json_quoted(c)
                + tail))))
            &&& s.subrange(q1, q2) == l2
            &&& s.skip(q2) == json_quoted(b) + (l3 + (json_quoted(c) + tail))
            &&& s.subrange(q3, q4) == l3
            &&& s.skip(q4) == json_quoted(c) + tail
            &&& s.subrange(q5, q5 + tail.len()) == tail
        }),
{
    let q0 = l1.len() as int;
    let q1 = q0 + json_quoted(a).len();
    let q2 = q1 + l2.len();
    let q3 = q2 + json_quoted(b).len();
    let q4 = q3 + l3.len();
    let q5 = q4 + json_quoted(c).len();
    assert(s.subrange(0, q0) =~= l1);
    assert(s.skip(q0) =~= json_quoted(a) + (l2 + (json_quoted(b) + (l3 + (json_quoted(c)
        + tail)))));
    assert(s.subrange(q1, q2) =~= l2);
    assert(s.skip(q2) =~= json_quoted(b) + (l3 + (json_quoted(c) + tail)));
    assert(s.subrange(q3, q4) =~= l3);
    assert(s.skip(q4) =~= json_quoted(c) + tail);
    assert(s.subrange(q5, q5 + tail.len()) =~= tail);
}

/// Reads a frame of one string field between two fixed pieces of text.
/// What it accepts is exactly that shape, and when it refuses, no text of
/// that shape equals the input.
#[verifier::rlimit(100)]
#[verifier::spinoff_prover]
fn p_one_string_frame(s: &Vec<char>, l1: &str, tail: &str) -> (r: Option<String>)
    ensures
        r matches Some(a) ==> s@ == one_string_frame(l1@, a@, tail@),
        r is None ==> forall|a: Seq<char>| s@ != #[trigger] one_string_frame(l1@, a, tail@),
{
    let p0 = match eat(s, 0, l1) {
        Option::Some(p) => p,
        Option::None => {
            proof {
                assert forall|a: Seq<char>| s@ != #[trigger] one_string_frame(l1@, a, tail@) by {
                    if s@ == one_string_frame(l1@, a, tail@) {
                        assert(s@.subrange(0, l1@.len() as int) =~= l1@);
                    }
                }
            }
            return Option::None;
        },
    };
    let (val, p1) = match p_string(s, p0) {
        Option::Some(v) => v,
        Option::None => {
            proof {
                assert forall|a: Seq<char>| s@ != #[trigger] one_string_frame(l1@, a, tail@) by {
                    if s@ == one_string_frame(l1@, a, tail@) {
                        assert(s@.skip(p0 as int) =~= json_quoted(a) + tail@);
                    }
                }
            }
            return Option::None;
        },
    };
    match eat(s, p1, tail) {
        Option::Some(p2) => {
            if p2 == s.len() {
                proof {
                    assert(s@ =~= (l1@ + json_quoted(val@)) + tail@);
                }
                return Option::Some(val);
            }
            proof {
                assert forall|a: Seq<char>| s@ != #[trigger] one_string_frame(l1@, a, tail@) by {
                    if s@ == one_string_frame(l1@, a, tail@) {
                        assert(s@.skip(p0 as int) =~= json_quoted(a) + tail@);
                        assert(p1 == p0 + json_quoted(a).len());
                        assert(p2 == s@.len());
                    }
                }
            }
            return Option::None;
        },
        Option::None => {
            proof {
                assert forall|a: Seq<char>| s@ != #[trigger] one_string_frame(l1@, a, tail@) by {
                    if s@ == one_string_frame(l1@, a, tail@) {
                        assert(s@.skip(p0 as int) =~= json_quoted(a) + tail@);
                        assert(p1 == p0 + json_quoted(a).len());
                        assert(s@.subrange(p1 as int, p1 + tail@.len()) =~= tail@);
                    }
                }
            }
            return Option::None;
        },
    }
}

/// Reads a frame of three string fields between four fixed pieces of text.
/// What it accepts is exactly that shape, and when it refuses, no text of
/// that shape equals the input.
#[verifier::rlimit(100)]
#[verifier::spinoff_prover]
fn p_three_string_frame(s: &Vec<char>, l1: &str, l2: &str, l3: &str, tail: &str) -> (r: Option<
    (String, String, String),
>)
    ensures
        r matches Some(v) ==> s@ == three_string_frame(l1@, v.0@, l2@, v.1@, l3@, v.2@, tail@),
        r is None ==> forall|a: Seq<char>, b: Seq<char>, c: Seq<char>|
            s@ != #[trigger] three_string_frame(l1@, a, l2@, b, l3@, c, tail@),
{
    let p0 = match eat(s, 0, l1) {
        Option::Some(p) => p,
        Option::None => {
            proof {
                assert forall|a: Seq<char>, b: Seq<char>, c: Seq<char>|
                    s@ != #[trigger] three_string_frame(l1@, a, l2@, b, l3@, c, tail@) by {
                    if s@ == three_string_frame(l1@, a, l2@, b, l3@, c, tail@) {
                        lemma_three_string_frame_shape(s@, l1@, a, l2@, b, l3@, c, tail@);
                    }
                }
            }
            return Option::None;
        },
    };
    let (fa, p1) = match p_string(s, p0) {
        Option::Some(v) => v,
        Option::None => {
            proof {
                assert forall|a: Seq<char>, b: Seq<char>, c: Seq<char>|
                    s@ != #[trigger] three_string_frame(l1@, a, l2@, b, l3@, c, tail@) by {
                    if s@ == three_string_frame(l1@, a, l2@, b, l3@, c, tail@) {
                        lemma_three_string_frame_shape(s@, l1@, a, l2@, b, l3@, c, tail@);
                    }
                }
            }
            return Option::None;
        },
    };
    let p2 = match eat(s, p1, l2) {
        Option::Some(p) => p,
        Option::None => {
            proof {
                assert forall|a: Seq<char>, b: Seq<char>, c: Seq<char>|
                    s@ != #[trigger] three_string_frame(l1@, a, l2@, b, l3@, c, tail@) by {
                    if s@ == three_string_frame(l1@, a, l2@, b, l3@, c, tail@) {
                        lemma_three_string_frame_shape(s@, l1@, a, l2@, b, l3@, c, tail@);
                        assert(p1 == p0 + json_quoted(a).len());
                    }
                }
            }
            return Option::None;
        },
    };
    let (fb, p3) = match p_string(s, p2) {
        Option::Some(v) => v,
        Option::None => {
            proof {
                assert forall|a: Seq<char>, b: Seq<char>, c: Seq<char>|
                    s@ != #[trigger] three_string_frame(l1@, a, l2@, b, l3@, c, tail@) by {
                    if s@ == three_string_frame(l1@, a, l2@, b, l3@, c, tail@) {
                        lemma_three_string_frame_shape(s@, l1@, a, l2@, b, l3@, c, tail@);
                        assert(p1 == p0 + json_quoted(a).len());
                    }
                }
            }
            return Option::None;
        },
    };
    let p4 = match eat(s, p3, l3) {
        Option::Some(p) => p,
        Option::None => {
            proof {
                assert forall|a: Seq<char>, b: Seq<char>, c: Seq<char>|
                    s@ != #[trigger] three_string_frame(l1@, a, l2@, b, l3@, c, tail@) by {
                    if s@ == three_string_frame(l1@, a, l2@, b, l3@, c, tail@) {
                        lemma_three_string_frame_shape(s@, l1@, a, l2@, b, l3@, c, tail@);
                        assert(p1 == p0 + json_quoted(a).len());
                        assert(p3 == p2 + json_quoted(b).len());
                    }
                }
            }
            return Option::None;
        },
    };
    let (fc, p5) = match p_string(s, p4) {
        Option::Some(v) => v,
        Option::None => {
            proof {
                assert forall|a: Seq<char>, b: Seq<char>, c: Seq<char>|
                    s@ != #[trigger] three_string_frame(l1@, a, l2@, b, l3@, c, tail@) by {
                    if s@ == three_string_frame(l1@, a, l2@, b, l3@, c, tail@) {
                        lemma_three_string_frame_shape(s@, l1@, a, l2@, b, l3@, c, tail@);
                        assert(p1 == p0 + json_quoted(a).len());
                        assert(p3 == p2 + json_quoted(b).len());
                    }
                }
            }
            return Option::None;
        },
    };
    match eat(s, p5, tail) {
        Option::Some(p6) => {
            if p6 == s.len() {
                proof {
                    assert(s@ =~= (((((l1@ + json_quoted(fa@)) + l2@) + json_quoted(fb@)) + l3@)
                        + json_quoted(fc@)) + tail@);
                }
                return Option::Some((fa, fb, fc));
            }
            proof {
                assert forall|a: Seq<char>, b: Seq<char>, c: Seq<char>|
                    s@ != #[trigger] three_string_frame(l1@, a, l2@, b, l3@, c, tail@) by {
                    if s@ == three_string_frame(l1@, a, l2@, b, l3@, c, tail@) {
                        lemma_three_string_frame_shape(s@, l1@, a, l2@, b, l3@, c, tail@);
                        assert(p1 == p0 + json_quoted(a).len());
                        assert(p3 == p2 + json_quoted(b).len());
                        assert(p5 == p4 + json_quoted(c).len());
                        assert(p6 == s@.len());
                    }
                }
            }
            return Option::None;
        },
        Option::None => {
            proof {
                assert forall|a: Seq<char>, b: Seq<char>, c: Seq<char>|
                    s@ != #[trigger] three_string_frame(l1@, a, l2@, b, l3@, c, tail@) by {
                    if s@ == three_string_frame(l1@, a, l2@, b, l3@, c, tail@) {
                        lemma_three_string_frame_shape(s@, l1@, a, l2@, b, l3@, c, tail@);
                        assert(p1 == p0 + json_quoted(a).len());
                        assert(p3 == p2 + json_quoted(b).len());
                        assert(p5 == p4 + json_quoted(c).len());
                    }
                }
            }
            return Option::None;
        },
    }
}

/// Reads an authentication-failure event. When it refuses, no canonical
/// authentication-failure event has this text.
fn try_auth_failed(s: &Vec<char>) -> (r: Option<ServerEvent>)
    ensures
        r matches Some(m) ==> s@ == enc_server(m),
        r is None ==> forall|m: ServerEvent|
            m matches ServerEvent::AuthFailed { .. } ==> s@ != #[trigger] enc_server(m),
{
    match p_one_string_frame(s, "{\"event\":\"auth_failed\",\"data\":{\"error\":", "}}") {
        Option::Some(error) => {
            let m = ServerEvent::AuthFailed { data: AuthFailedData { error } };
            Option::Some(m)
        },
        Option::None => {
            proof {
                assert forall|m: ServerEvent|
                    m matches ServerEvent::AuthFailed { .. } implies s@ != enc_server(m) by {
                    match m {
                        ServerEvent::AuthFailed { data } => {
                            assert(enc_server(m) == one_string_frame(
                                "{\"event\":\"auth_failed\",\"data\":{\"error\":"@,
                                data.error@,
                                "}}"@,
                            ));
                        },
                        _ => {},
                    }
                }
            }
            Option::None
        },
    }
}

/// Reads a reconcile-hint event. When it refuses, no canonical
/// reconcile-hint event has this text.
fn try_sync_required(s: &Vec<char>) -> (r: Option<ServerEvent>)
    ensures
        r matches Some(m) ==> s@ == enc_server(m),
        r is None ==> forall|m: ServerEvent|
            m matches ServerEvent::SyncRequired { .. } ==> s@ != #[trigger] enc_server(m),
{
    match p_one_string_frame(s, "{\"event\":\"sync_required\",\"data\":{\"message\":", "}}") {
        Option::Some(message) => {
            let m = ServerEvent::SyncRequired { data: SyncRequiredData { message } };
            Option::Some(m)
        },
        Option::None => {
            proof {
                assert forall|m: ServerEvent|
                    m matches ServerEvent::SyncRequired { .. } implies s@ != enc_server(m) by {
                    match m {
                        ServerEvent::SyncRequired { data } => {
                            assert(enc_server(m) == one_string_frame(
                                "{\"event\":\"sync_required\",\"data\":{\"message\":"@,
                                data.message@,
                                "}}"@,
                            ));
                        },
                        _ => {},
                    }
                }
            }
            Option::None
        },
    }
}

/// Reads a relayed key-request event. When it refuses, no canonical
/// key-request event has this text.
fn try_key_request_event(s: &Vec<char>) -> (r: Option<ServerEvent>)
    ensures
        r matches Some(m) ==> s@ == enc_server(m),
        r is None ==> forall|m: ServerEvent|
            m matches ServerEvent::KeyRequestEvent { .. } ==> s@ != #[trigger] enc_server(m),
{
    match p_three_string_frame(
        s,
        "{\"event\":\"key_request\",\"data\":{\"group_name\":",
        ",\"requester_machine_id\":",
        ",\"public_key\":",
        "}}",
    ) {
        Option::Some(v) => {
            let (group_name, requester_machine_id, public_key) = v;
            let m = ServerEvent::KeyRequestEvent {
                data: KeyRequestData { group_name, requester_machine_id, public_key },
            };
            Option::Some(m)
        },
        Option::None => {
            proof {
                assert forall|m: ServerEvent|
                    m matches ServerEvent::KeyRequestEvent { .. } implies s@ != enc_server(m) by {
                    match m {
                        ServerEvent::KeyRequestEvent { data } => {
                            assert(enc_server(m) == three_string_frame(
                                "{\"event\":\"key_request\",\"data\":{\"group_name\":"@,
                                data.group_name@,
                                ",\"requester_machine_id\":"@,
                                data.requester_machine_id@,
                                ",\"public_key\":"@,
                                data.public_key@,
                                "}}"@,
                            ));
                        },
                        _ => {},
                    }
                }
            }
            Option::None
        },
    }
}

/// Reads a relayed key-response event. When it refuses, no canonical
/// key-response event has this text.
fn try_key_response_event(s: &Vec<char>) -> (r: Option<ServerEvent>)
    ensures
        r matches Some(m) ==> s@ == enc_server(m),
        r is None ==> forall|m: ServerEvent|
            m matches ServerEvent::KeyResponseEvent { .. } ==> s@ != #[trigger] enc_server(m),
{
    match p_three_string_frame(
        s,
        "{\"event\":\"key_response\",\"data\":{\"group_name\":",
        ",\"wrapped_key\":",
        ",\"sender_public_key\":",
        "}}",
    ) {
        Option::Some(v) => {
            let (group_name, wrapped_key, sender_public_key) = v;
            let m = ServerEvent::KeyResponseEvent {
                data: KeyResponseData { group_name, wrapped_key, sender_public_key },
            };
            Option::Some(m)
        },
        Option::None => {
            proof {
                assert forall|m: ServerEvent|
                    m matches ServerEvent::KeyResponseEvent { .. } implies s@ != enc_server(m) by {
                    match m {
                        ServerEvent::KeyResponseEvent { data } => {
                            assert(enc_server(m) == three_string_frame(
                                "{\"event\":\"key_response\",\"data\":{\"group_name\":"@,
                                data.group_name@,
                                ",\"wrapped_key\":"@,
                                data.wrapped_key@,
                                ",\"sender_public_key\":"@,
                                data.sender_public_key@,
                                "}}"@,
                            ));
                        },
                        _ => {},
                    }
                }
            }
            Option::None
        },
    }
}


/// Reads a pong event. When it refuses, no canonical pong event has this
/// text.
#[verifier::rlimit(100)]
#[verifier::spinoff_prover]
fn try_pong(s: &Vec<char>) -> (r: Option<ServerEvent>)
    ensures
        r matches Some(m) ==> s@ == enc_server(m),
        r is None ==> forall|m: ServerEvent|
            m matches ServerEvent::Pong { .. } ==> s@ != #[trigger] enc_server(m),
{
    let p0 = match eat(s, 0, "{\"event\":\"pong\",\"data\":{\"timestamp\":") {
        Option::Some(p) => p,
        Option::None => {
            proof {
                assert forall|m: ServerEvent|
                    m matches ServerEvent::Pong { .. } implies s@ != enc_server(m) by {
                    match m {
                        ServerEvent::Pong { data } => {
                            if s@ == enc_server(m) {
                                assert(s@.subrange(
                                    0,
                                    "{\"event\":\"pong\",\"data\":{\"timestamp\":"@.len() as int,
                                ) =~= "{\"event\":\"pong\",\"data\":{\"timestamp\":"@);
                            }
                        },
                        _ => {},
                    }
                }
            }
            return Option::None;
        },
    };
    let (timestamp, p1) = match p_num(s, p0) {
        Option::Some(v) => v,
        Option::None => {
            proof {
                assert forall|m: ServerEvent|
                    m matches ServerEvent::Pong { .. } implies s@ != enc_server(m) by {
                    match m {
                        ServerEvent::Pong { data } => {
                            if s@ == enc_server(m) {
                                assert(s@.skip(p0 as int) =~= crate::strutil::dec_i64(
                                    data.timestamp as int,
                                ) + "}}"@);
                                reveal_strlit("}}");
                            }
                        },
                        _ => {},
                    }
                }
            }
            return Option::None;
        },
    };
    match eat(s, p1, "}}") {
        Option::Some(p2) => {
            if p2 == s.len() {
                let m = ServerEvent::Pong { data: PongData { timestamp } };
                proof {
                    assert(s@ =~= ("{\"event\":\"pong\",\"data\":{\"timestamp\":"@
                        + crate::strutil::dec_i64(timestamp as int)) + "}}"@);
                }
                return Option::Some(m);
            }
            proof {
                assert forall|m: ServerEvent|
                    m matches ServerEvent::Pong { .. } implies s@ != enc_server(m) by {
                    match m {
                        ServerEvent::Pong { data } => {
                            if s@ == enc_server(m) {
                                assert(s@.skip(p0 as int) =~= crate::strutil::dec_i64(
                                    data.timestamp as int,
                                ) + "}}"@);
                                reveal_strlit("}}");
                                assert(p1 == p0 + crate::strutil::dec_i64(
                                    data.timestamp as int,
                                ).len());
                                assert(p2 == s@.len());
                            }
                        },
                        _ => {},
                    }
                }
            }
            return Option::None;
        },
        Option::None => {
            proof {
                assert forall|m: ServerEvent|
                    m matches ServerEvent::Pong { .. } implies s@ != enc_server(m) by {
                    match m {
                        ServerEvent::Pong { data } => {
                            if s@ == enc_server(m) {
                                assert(s@.skip(p0 as int) =~= crate::strutil::dec_i64(
                                    data.timestamp as int,
                                ) + "}}"@);
                                reveal_strlit("}}");
                                assert(p1 == p0 + crate::strutil::dec_i64(
                                    data.timestamp as int,
                                ).len());
                                assert(s@.subrange(p1 as int, p1 + "}}"@.len()) =~= "}}"@);
                            }
                        },
                        _ => {},
                    }
                }
            }
            return Option::None;
        },
    }
}


/// Where a text is a canonical alias-deleted event, each piece stands at
/// the position the earlier pieces' lengths give.
#[verifier::rlimit(100)]
#[verifier::spinoff_prover]
proof fn lemma_alias_deleted_shape(s: Seq<char>, a: int, g: Seq<char>)
    requires
        s == "{\"event\":\"alias_deleted\",\"data\":{\"id\":"@ + crate::strutil::dec_i64(a)
            + ",\"name\":"@ + json_quoted(g) + "}}"@,
    ensures
        ({
            let l1 = "{\"event\":\"alias_deleted\",\"data\":{\"id\":"@;
            let l2 = ",\"name\":"@;
            let da = crate::strutil::dec_i64(a);
            let b0 = l1.len() as int;
            let b1 = b0 + da.len();
            let b2 = b1 + l2.len();
            let b3 = b2 + json_quoted(g).len();
            let r1 = l2 + (json_quoted(g) + "}}"@);
            &&& s.len() == b3 + "}}"@.len()
            &&& s.subrange(0, b0) == l1
            &&& s.skip(b0) == da + r1
            &&& r1.len() > 0 && r1[0] == ','
            &&& s.subrange(b1, b2) == l2
            &&& s.skip(b2) == json_quoted(g) + "}}"@
            &&& s.subrange(b3, b3 + "}}"@.len()) == "}}"@
        }),
{
    let l1 = "{\"event\":\"alias_deleted\",\"data\":{\"id\":"@;
    let l2 = ",\"name\":"@;
    let da = crate::strutil::dec_i64(a);
    let b0 = l1.len() as int;
    let b1 = b0 + da.len();
    let b2 = b1 + l2.len();
    let b3 = b2 + json_quoted(g).len();
    let r1 = l2 + (json_quoted(g) + "}}"@);
    assert(s.skip(0) =~= s);
    assert(s =~= l1 + (da + r1));
    lemma_tail_decomp(s, 0, l1, da + r1);
    lemma_tail_decomp(s, b0, da, r1);
    lemma_tail_decomp(s, b1, l2, json_quoted(g) + "}}"@);
    lemma_tail_decomp(s, b2, json_quoted(g), "}}"@);
    assert(s.subrange(b3, b3 + "}}"@.len()) =~= s.skip(b3));
    reveal_strlit(",\"name\":");
    assert(r1[0] == l2[0]);
}

/// Reads an alias-deleted event. When it refuses, no canonical
/// alias-deleted event has this text.
#[verifier::rlimit(100)]
#[verifier::spinoff_prover]
fn try_alias_deleted(s: &Vec<char>) -> (r: Option<ServerEvent>)
    ensures
        r matches Some(m) ==> s@ == enc_server(m),
        r is None ==> forall|m: ServerEvent|
            m matches ServerEvent::AliasDeleted { .. } ==> s@ != #[trigger] enc_server(m),
{
    let p0 = match eat(s, 0, "{\"event\":\"alias_deleted\",\"data\":{\"id\":") {
        Option::Some(p) => p,
        Option::None => {
            proof {
                assert forall|m: ServerEvent|
                    m matches ServerEvent::AliasDeleted { .. } implies s@ != enc_server(m) by {
                    match m {
                        ServerEvent::AliasDeleted { data } => {
                            if s@ == enc_server(m) {
                                lemma_alias_deleted_shape(s@, data.id as int, data.name@);
                            }
                        },
                        _ => {},
                    }
                }
            }
            return Option::None;
        },
    };
    let (id, p1) = match p_num(s, p0) {
        Option::Some(v) => v,
        Option::None => {
            proof {
                assert forall|m: ServerEvent|
                    m matches ServerEvent::AliasDeleted { .. } implies s@ != enc_server(m) by {
                    match m {
                        ServerEvent::AliasDeleted { data } => {
                            if s@ == enc_server(m) {
                                lemma_alias_deleted_shape(s@, data.id as int, data.name@);
                            }
                        },
                        _ => {},
                    }
                }
            }
            return Option::None;
        },
    };
    let p2 = match eat(s, p1, ",\"name\":") {
        Option::Some(p) => p,
        Option::None => {
            proof {
                assert forall|m: ServerEvent|
                    m matches ServerEvent::AliasDeleted { .. } implies s@ != enc_server(m) by {
                    match m {
                        ServerEvent::AliasDeleted { data } => {
                            if s@ == enc_server(m) {
                                lemma_alias_deleted_shape(s@, data.id as int, data.name@);
                                assert(p1 == p0 + crate::strutil::dec_i64(data.id as int).len());
                            }
                        },
                        _ => {},
                    }
                }
            }
            return Option::None;
        },
    };
    let (name, p3) = match p_string(s, p2) {
        Option::Some(v) => v,
        Option::None => {
            proof {
                assert forall|m: ServerEvent|
                    m matches ServerEvent::AliasDeleted { .. } implies s@ != enc_server(m) by {
                    match m {
                        ServerEvent::AliasDeleted { data } => {
                            if s@ == enc_server(m) {
                                lemma_alias_deleted_shape(s@, data.id as int, data.name@);
                                assert(p1 == p0 + crate::strutil::dec_i64(data.id as int).len());
                            }
                        },
                        _ => {},
                    }
                }
            }
            return Option::None;
        },
    };
    match eat(s, p3, "}}") {
        Option::Some(p4) => {
            if p4 == s.len() {
                let m = ServerEvent::AliasDeleted { data: AliasDeletedData { id, name } };
                proof {
                    assert(s@ =~= "{\"event\":\"alias_deleted\",\"data\":{\"id\":"@
                        + crate::strutil::dec_i64(id as int) + ",\"name\":"@ + json_quoted(
                        name@,
                    ) + "}}"@);
                }
                return Option::Some(m);
            }
            proof {
                assert forall|m: ServerEvent|
                    m matches ServerEvent::AliasDeleted { .. } implies s@ != enc_server(m) by {
                    match m {
                        ServerEvent::AliasDeleted { data } => {
                            if s@ == enc_server(m) {
                                lemma_alias_deleted_shape(s@, data.id as int, data.name@);
                                assert(p1 == p0 + crate::strutil::dec_i64(data.id as int).len());
                                assert(p3 == p2 + json_quoted(data.name@).len());
                                assert(p4 == s@.len());
                            }
                        },
                        _ => {},
                    }
                }
            }
            return Option::None;
        },
        Option::None => {
            proof {
                assert forall|m: ServerEvent|
                    m matches ServerEvent::AliasDeleted { .. } implies s@ != enc_server(m) by {
                    match m {
                        ServerEvent::AliasDeleted { data } => {
                            if s@ == enc_server(m) {
                                lemma_alias_deleted_shape(s@, data.id as int, data.name@);
                                assert(p1 == p0 + crate::strutil::dec_i64(data.id as int).len());
                                assert(p3 == p2 + json_quoted(data.name@).len());
                                assert(s@.subrange(p3 as int, p3 + "}}"@.len()) =~= "}}"@);
                            }
                        },
                        _ => {},
                    }
                }
            }
            return Option::None;
        },
    }
}


/// Where a text is a canonical auth-success event, each piece stands at
/// the position the earlier pieces' lengths give.
#[verifier::rlimit(100)]
#[verifier::spinoff_prover]
proof fn lemma_auth_success_shape(s: Seq<char>, mid: Seq<char>, gs: Seq<String>)
    requires
        s == "{\"event\":\"auth_success\",\"data\":{\"machine_id\":"@ + json_quoted(mid)
            + ",\"groups\":["@ + enc_string_list(gs) + "]}}"@,
    ensures
        ({
            let l1 = "{\"event\":\"auth_success\",\"data\":{\"machine_id\":"@;
            let l2 = ",\"groups\":["@;
            let b0 = l1.len() as int;
            let b1 = b0 + json_quoted(mid).len();
            let b2 = b1 + l2.len();
            let b3 = b2 + enc_string_list(gs).len() + "]"@.len();
            &&& s.len() == b3 + "}}"@.len()
            &&& s.subrange(0, b0) == l1
            &&& s.skip(b0) == json_quoted(mid) + (l2 + strlist_text(gs, "}}"@))
            &&& s.subrange(b1, b2) == l2
            &&& s.skip(b2) == strlist_text(gs, "}}"@)
            &&& s.subrange(b3, b3 + "}}"@.len()) == "}}"@
        }),
{
    let l1 = "{\"event\":\"auth_success\",\"data\":{\"machine_id\":"@;
    let l2 = ",\"groups\":["@;
    let b0 = l1.len() as int;
    let b1 = b0 + json_quoted(mid).len();
    let b2 = b1 + l2.len();
    let b3 = b2 + enc_string_list(gs).len() + "]"@.len();
    reveal_strlit("]");
    reveal_strlit("}}");
    reveal_strlit("]}}");
    assert("]}}"@ =~= "]"@ + "}}"@);
    lemma_strlist_text(gs, "}}"@);
    assert(enc_string_list(gs) + "]}}"@ =~= strlist_text(gs, "}}"@));
    assert(s.skip(0) =~= s);
    assert(s =~= l1 + (json_quoted(mid) + (l2 + strlist_text(gs, "}}"@))));
    lemma_tail_decomp(s, 0, l1, json_quoted(mid) + (l2 + strlist_text(gs, "}}"@)));
    lemma_tail_decomp(s, b0, json_quoted(mid), l2 + strlist_text(gs, "}}"@));
    lemma_tail_decomp(s, b1, l2, strlist_text(gs, "}}"@));
    assert(strlist_text(gs, "}}"@) =~= (enc_string_list(gs) + "]"@) + "}}"@);
    lemma_tail_decomp(s, b2, enc_string_list(gs) + "]"@, "}}"@);
    assert(s.subrange(b3, b3 + "}}"@.len()) =~= s.skip(b3));
}

/// Reads an auth-success event. When it refuses, no canonical auth-success
/// event has this text.
#[verifier::rlimit(100)]
#[verifier::spinoff_prover]
fn try_auth_success(s: &Vec<char>) -> (r: Option<ServerEvent>)
    ensures
        r matches Some(m) ==> s@ == enc_server(m),
        r is None ==> forall|m: ServerEvent|
            m matches ServerEvent::AuthSuccess { .. } ==> s@ != #[trigger] enc_server(m),
{
    let p0 = match eat(s, 0, "{\"event\":\"auth_success\",\"data\":{\"machine_id\":") {
        Option::Some(p) => p,
        Option::None => {
            proof {
                assert forall|m: ServerEvent|
                    m matches ServerEvent::AuthSuccess { .. } implies s@ != enc_server(m) by {
                    match m {
                        ServerEvent::AuthSuccess { data } => {
                            if s@ == enc_server(m) {
                                lemma_auth_success_shape(s@, data.machine_id@, data.groups@);
                            }
                        },
                        _ => {},
                    }
                }
            }
            return Option::None;
        },
    };
    let (machine_id, p1) = match p_string(s, p0) {
        Option::Some(v) => v,
        Option::None => {
            proof {
                assert forall|m: ServerEvent|
                    m matches ServerEvent::AuthSuccess { .. } implies s@ != enc_server(m) by {
                    match m {
                        ServerEvent::AuthSuccess { data } => {
                            if s@ == enc_server(m) {
                                lemma_auth_success_shape(s@, data.machine_id@, data.groups@);
                            }
                        },
                        _ => {},
                    }
                }
            }
            return Option::None;
        },
    };
    let p2 = match eat(s, p1, ",\"groups\":[") {
        Option::Some(p) => p,
        Option::None => {
            proof {
                assert forall|m: ServerEvent|
                    m matches ServerEvent::AuthSuccess { .. } implies s@ != enc_server(m) by {
                    match m {
                        ServerEvent::AuthSuccess { data } => {
                            if s@ == enc_server(m) {
                                lemma_auth_success_shape(s@, data.machine_id@, data.groups@);
                                assert(p1 == p0 + json_quoted(data.machine_id@).len());
                            }
                        },
                        _ => {},
                    }
                }
            }
            return Option::None;
        },
    };
    let (groups, p3) = match p_string_array(s, p2) {
        Option::Some(v) => v,
        Option::None => {
            proof {
                assert forall|m: ServerEvent|
                    m matches ServerEvent::AuthSuccess { .. } implies s@ != enc_server(m) by {
                    match m {
                        ServerEvent::AuthSuccess { data } => {
                            if s@ == enc_server(m) {
                                lemma_auth_success_shape(s@, data.machine_id@, data.groups@);
                                assert(p1 == p0 + json_quoted(data.machine_id@).len());
                                assert(s@.skip(p2 as int) == strlist_text(data.groups@, "}}"@));
                            }
                        },
                        _ => {},
                    }
                }
            }
            return Option::None;
        },
    };
    match eat(s, p3, "}}") {
        Option::Some(p4) => {
            if p4 == s.len() {
                let m = ServerEvent::AuthSuccess {
                    data: AuthSuccessData { machine_id, groups },
                };
                proof {
                    reveal_strlit("]");
                    reveal_strlit("}}");
                    reveal_strlit("]}}");
                    let l1 = "{\"event\":\"auth_success\",\"data\":{\"machine_id\":"@;
                    let l2 = ",\"groups\":["@;
                    assert(s@ =~= (((l1 + json_quoted(machine_id@)) + l2) + (enc_string_list(
                        groups@,
                    ) + "]"@)) + "}}"@);
                    assert("]}}"@ =~= "]"@ + "}}"@);
                    assert((((l1 + json_quoted(machine_id@)) + l2) + (enc_string_list(groups@)
                        + "]"@)) + "}}"@ =~= l1 + json_quoted(machine_id@) + l2
                        + enc_string_list(groups@) + "]}}"@);
                }
                return Option::Some(m);
            }
            proof {
                assert forall|m: ServerEvent|
                    m matches ServerEvent::AuthSuccess { .. } implies s@ != enc_server(m) by {
                    match m {
                        ServerEvent::AuthSuccess { data } => {
                            if s@ == enc_server(m) {
                                lemma_auth_success_shape(s@, data.machine_id@, data.groups@);
                                assert(p1 == p0 + json_quoted(data.machine_id@).len());
                                assert(s@.skip(p2 as int) == strlist_text(data.groups@, "}}"@));
                                assert(p3 == p2 + enc_string_list(data.groups@).len()
                                    + "]"@.len());
                                assert(p4 == s@.len());
                            }
                        },
                        _ => {},
                    }
                }
            }
            return Option::None;
        },
        Option::None => {
            proof {
                assert forall|m: ServerEvent|
                    m matches ServerEvent::AuthSuccess { .. } implies s@ != enc_server(m) by {
                    match m {
                        ServerEvent::AuthSuccess { data } => {
                            if s@ == enc_server(m) {
                                lemma_auth_success_shape(s@, data.machine_id@, data.groups@);
                                assert(p1 == p0 + json_quoted(data.machine_id@).len());
                                assert(s@.skip(p2 as int) == strlist_text(data.groups@, "}}"@));
                                assert(p3 == p2 + enc_string_list(data.groups@).len()
                                    + "]"@.len());
                                assert(s@.subrange(p3 as int, p3 + "}}"@.len()) =~= "}}"@);
                            }
                        },
                        _ => {},
                    }
                }
            }
            return Option::None;
        },
    }
}

fn parse_server(s: &Vec<char>) -> (r: Option<ServerEvent>)
    ensures
        forall|m: ServerEvent|
            ((m matches ServerEvent::AuthFailed { .. }) || (m matches ServerEvent::SyncRequired { .. }) || (m matches ServerEvent::KeyRequestEvent { .. }) || (m matches
            ServerEvent::KeyResponseEvent { .. }) || (m matches ServerEvent::Pong { .. }) || (m
            matches ServerEvent::AliasDeleted { .. }) || (m matches ServerEvent::AuthSuccess {
                ..
            })) && s@ == #[trigger] enc_server(m) ==> (r matches Some(p) && s@ == enc_server(
                p,
            )),
{
    match try_auth_failed(s) {
        Option::Some(m) => {
            return Option::Some(m);
        },
        Option::None => {},
    }
    match try_sync_required(s) {
        Option::Some(m) => {
            return Option::Some(m);
        },
        Option::None => {},
    }
    match try_key_request_event(s) {
        Option::Some(m) => {
            return Option::Some(m);
        },
        Option::None => {},
    }
    match try_key_response_event(s) {
        Option::Some(m) => {
            return Option::Some(m);
        },
        Option::None => {},
    }
    match try_pong(s) {
        Option::Some(m) => {
            return Option::Some(m);
        },
        Option::None => {},
    }
    match try_alias_deleted(s) {
        Option::Some(m) => {
            return Option::Some(m);
        },
        Option::None => {},
    }
    match try_auth_success(s) {
        Option::Some(m) => {
            return Option::Some(m);
        },
        Option::None => {},
    }
    match eat(s, 0, "{\"event\":\"alias_added\",\"data\":") {
        Option::Some(p) => {
            let (a, p) = match p_alias(s, p) {
                Option::Some(v) => v,
                Option::None => {
                    return Option::None;
                },
            };
            if eat(s, p, "}").is_some() {
                return Option::Some(ServerEvent::AliasAdded { data: a });
            }
            return Option::None;
        },
        Option::None => {},
    }
    match eat(s, 0, "{\"event\":\"alias_updated\",\"data\":") {
        Option::Some(p) => {
            let (a, p) = match p_alias(s, p) {
                Option::Some(v) => v,
                Option::None => {
                    return Option::None;
                },
            };
            if eat(s, p, "}").is_some() {
                return Option::Some(ServerEvent::AliasUpdated { data: a });
            }
            return Option::None;
        },
        Option::None => {},
    }

    match eat(s, 0, "{\"event\":\"pong\",\"data\":{\"timestamp\":") {
        Option::Some(p) => {
            let (timestamp, p) = match p_i64(s, p) {
                Option::Some(v) => v,
                Option::None => {
                    return Option::None;
                },
            };
            if eat(s, p, "}}").is_some() {
                return Option::Some(ServerEvent::Pong { data: PongData { timestamp } });
            }
            return Option::None;
        },
        Option::None => {},
    }
    match eat(s, 0, "{\"event\":\"history_sync\",\"data\":{\"encrypted\":true,\"entries\":[") {
        Option::Some(p) => {
            let (entries, p) = match p_enc_entry_array(s, p) {
                Option::Some(v) => v,
                Option::None => {
                    return Option::None;
                },
            };
            let p = match eat(s, p, ",\"source_machine_id\":") {
                Option::Some(p) => p,
                Option::None => {
                    return Option::None;
                },
            };
            let (source_machine_id, p) = match p_string(s, p) {
                Option::Some(v) => v,
                Option::None => {
                    return Option::None;
                },
            };
            if eat(s, p, "}}").is_some() {
                return Option::Some(
                    ServerEvent::HistorySyncEncrypted {
                        data: HistorySyncEncryptedData { entries, source_machine_id },
                    },
                );
            }
            return Option::None;
        },
        Option::None => {},
    }
    match eat(s, 0, "{\"event\":\"history_sync\",\"data\":{\"entries\":[") {
        Option::Some(p) => {
            let (entries, p) = match p_entry_array(s, p) {
                Option::Some(v) => v,
                Option::None => {
                    return Option::None;
                },
            };
            let p = match eat(s, p, ",\"source_machine_id\":") {
                Option::Some(p) => p,
                Option::None => {
                    return Option::None;
                },
            };
            let (source_machine_id, p) = match p_string(s, p) {
                Option::Some(v) => v,
                Option::None => {
                    return Option::None;
                },
            };
            if eat(s, p, "}}").is_some() {
                return Option::Some(
                    ServerEvent::HistorySync {
                        data: HistorySyncData { entries, source_machine_id },
                    },
                );
            }
            return Option::None;
        },
        Option::None => {},
    }
    match eat(s, 0, "{\"event\":\"history_page\",\"data\":{\"entries\":[") {
        Option::Some(p) => {
            let (entries, p) = match p_entry_array(s, p) {
                Option::Some(v) => v,
                Option::None => {
                    return Option::None;
                },
            };
            let p = match eat(s, p, ",\"has_more\":") {
                Option::Some(p) => p,
                Option::None => {
                    return Option::None;
                },
            };
            let (has_more, p) = match eat(s, p, "true") {
                Option::Some(p2) => (true, p2),
                Option::None => match eat(s, p, "false") {
                    Option::Some(p2) => (false, p2),
                    Option::None => {
                        return Option::None;
                    },
                },
            };
            if eat(s, p, "}}").is_some() {
                return Option::Some(
                    ServerEvent::HistoryPage { data: HistoryPageData { entries, has_more } },
                );
            }
            return Option::None;
        },
        Option::None => {},
    }
    Option::None
}

/// Reads a client frame from its wire text. Only the canonical form this
/// codec emits is accepted: whatever is returned re-encodes to exactly the
/// input, so decoding an encoded frame can only yield that frame's text.
pub fn decode_client_message(s: &str) -> (r: Option<ClientMessage>)
    ensures
        r matches Some(m) ==> enc_client(m) == s@,
        forall|m: ClientMessage|
            ((m matches ClientMessage::Auth { .. }) || m == ClientMessage::Ping || (m matches
            ClientMessage::KeyRequest { .. }) || (m matches ClientMessage::KeyResponse { .. })
                || (m matches ClientMessage::HistoryQuery { .. })) && s@ == #[trigger] enc_client(
                m,
            ) ==> r is Some,
{
    let chars = chars_of(s);
    let m = match parse_client(&chars) {
        Option::Some(m) => m,
        Option::None => {
            return Option::None;
        },
    };
    let re = encode_client_message(&m);
    if str_eq(re.as_str(), s) {
        Option::Some(m)
    } else {
        Option::None
    }
}

/// Reads a server frame from its wire text, accepting the canonical form
/// this codec emits: whatever is returned re-encodes to exactly the input.
pub fn decode_server_event(s: &str) -> (r: Option<ServerEvent>)
    ensures
        r matches Some(m) ==> enc_server(m) == s@,
        forall|m: ServerEvent|
            ((m matches ServerEvent::AuthFailed { .. }) || (m matches ServerEvent::SyncRequired { .. }) || (m matches ServerEvent::KeyRequestEvent { .. }) || (m matches
            ServerEvent::KeyResponseEvent { .. }) || (m matches ServerEvent::Pong { .. }) || (m
            matches ServerEvent::AliasDeleted { .. }) || (m matches ServerEvent::AuthSuccess {
                ..
            })) && s@ == #[trigger] enc_server(m) ==> r is Some,
{
    let chars = chars_of(s);
    let m = match parse_server(&chars) {
        Option::Some(m) => m,
        Option::None => {
            return Option::None;
        },
    };
    let re = encode_server_event(&m);
    if str_eq(re.as_str(), s) {
        Option::Some(m)
    } else {
        Option::None
    }
}

/// Reads one hook-socket line, in the exact field order the shell hooks
/// emit: whatever is returned re-encodes to exactly the input line.

/// Where a text is a canonical hook payload, each piece stands at the
/// position the earlier pieces' lengths give.
#[verifier::rlimit(100)]
#[verifier::spinoff_prover]
proof fn lemma_hook_shape(
    s: Seq<char>,
    c1: Seq<char>,
    c2: Seq<char>,
    e: int,
    d: int,
    c3: Seq<char>,
    c4: Seq<char>,
)
    requires
        s == "{\"command\":"@ + json_quoted(c1) + ",\"cwd\":"@ + json_quoted(c2)
            + ",\"exit_code\":"@ + crate::strutil::dec_i64(e) + ",\"duration_ms\":"@
            + crate::strutil::dec_i64(d) + ",\"session_id\":"@ + json_quoted(c3) + ",\"shell\":"@
            + json_quoted(c4) + "}"@,
    ensures
        ({
            let l1 = "{\"command\":"@;
            let l2 = ",\"cwd\":"@;
            let l3 = ",\"exit_code\":"@;
            let l4 = ",\"duration_ms\":"@;
            let l5 = ",\"session_id\":"@;
            let l6 = ",\"shell\":"@;
            let de = crate::strutil::dec_i64(e);
            let dd = crate::strutil::dec_i64(d);
            let b0 = l1.len() as int;
            let b1 = b0 + json_quoted(c1).len();
            let b2 = b1 + l2.len();
            let b3 = b2 + json_quoted(c2).len();
            let b4 = b3 + l3.len();
            let b5 = b4 + de.len();
            let b6 = b5 + l4.len();
            let b7 = b6 + dd.len();
            let b8 = b7 + l5.len();
            let b9 = b8 + json_quoted(c3).len();
            let b10 = b9 + l6.len();
            let b11 = b10 + json_quoted(c4).len();
            let r3 = l4 + (dd + (l5 + (json_quoted(c3) + (l6 + (json_quoted(c4) + "}"@)))));
            let r4 = l5 + (json_quoted(c3) + (l6 + (json_quoted(c4) + "}"@)));
            &&& s.len() == b11 + "}"@.len()
            &&& s.subrange(0, b0) == l1
            &&& s.skip(b0) == json_quoted(c1) + (l2 + (json_quoted(c2) + (l3 + (de + r3))))
            &&& s.subrange(b1, b2) == l2
            &&& s.skip(b2) == json_quoted(c2) + (l3 + (de + r3))
            &&& s.subrange(b3, b4) == l3
            &&& s.skip(b4) == de + r3
            &&& r3.len() > 0 && r3[0] == ','
            &&& s.subrange(b5, b6) == l4
            &&& s.skip(b6) == dd + r4
            &&& r4.len() > 0 && r4[0] == ','
            &&& s.subrange(b7, b8) == l5
            &&& s.skip(b8) == json_quoted(c3) + (l6 + (json_quoted(c4) + "}"@))
            &&& s.subrange(b9, b10) == l6
            &&& s.skip(b10) == json_quoted(c4) + "}"@
            &&& s.subrange(b11, b11 + "}"@.len()) == "}"@
        }),
{
    let l1 = "{\"command\":"@;
    let l2 = ",\"cwd\":"@;
    let l3 = ",\"exit_code\":"@;
    let l4 = ",\"duration_ms\":"@;
    let l5 = ",\"session_id\":"@;
    let l6 = ",\"shell\":"@;
    let de = crate::strutil::dec_i64(e);
    let dd = crate::strutil::dec_i64(d);
    let b0 = l1.len() as int;
    let b1 = b0 + json_quoted(c1).len();
    let b2 = b1 + l2.len();
    let b3 = b2 + json_quoted(c2).len();
    let b4 = b3 + l3.len();
    let b5 = b4 + de.len();
    let b6 = b5 + l4.len();
    let b7 = b6 + dd.len();
    let b8 = b7 + l5.len();
    let b9 = b8 + json_quoted(c3).len();
    let b10 = b9 + l6.len();
    let b11 = b10 + json_quoted(c4).len();
    let r3 = l4 + (dd + (l5 + (json_quoted(c3) + (l6 + (json_quoted(c4) + "}"@)))));
    let r4 = l5 + (json_quoted(c3) + (l6 + (json_quoted(c4) + "}"@)));
    assert(s.skip(0) =~= s);
    assert(s =~= l1 + (json_quoted(c1) + (l2 + (json_quoted(c2) + (l3 + (de + r3))))));
    lemma_tail_decomp(s, 0, l1, json_quoted(c1) + (l2 + (json_quoted(c2) + (l3 + (de + r3)))));
    lemma_tail_decomp(s, b0, json_quoted(c1), l2 + (json_quoted(c2) + (l3 + (de + r3))));
    lemma_tail_decomp(s, b1, l2, json_quoted(c2) + (l3 + (de + r3)));
    lemma_tail_decomp(s, b2, json_quoted(c2), l3 + (de + r3));
    lemma_tail_decomp(s, b3, l3, de + r3);
    lemma_tail_decomp(s, b4, de, r3);
    lemma_tail_decomp(s, b5, l4, dd + r4);
    lemma_tail_decomp(s, b6, dd, r4);
    lemma_tail_decomp(s, b7, l5, json_quoted(c3) + (l6 + (json_quoted(c4) + "}"@)));
    lemma_tail_decomp(s, b8, json_quoted(c3), l6 + (json_quoted(c4) + "}"@));
    lemma_tail_decomp(s, b9, l6, json_quoted(c4) + "}"@);
    lemma_tail_decomp(s, b10, json_quoted(c4), "}"@);
    assert(s.subrange(b11, b11 + "}"@.len()) =~= s.skip(b11));
    reveal_strlit(",\"duration_ms\":");
    reveal_strlit(",\"session_id\":");
    assert(r3[0] == l4[0]);
    assert(r4[0] == l5[0]);
}

pub fn decode_hook_payload(line: &str) -> (r: Option<HistoryHookPayload>)
    ensures
        r matches Some(p) ==> enc_hook_payload(p) == line@,
        forall|q: HistoryHookPayload| line@ == #[trigger] enc_hook_payload(q) ==> r is Some,
{
    let chars = chars_of(line);
    let p0 = match eat(&chars, 0, "{\"command\":") {
        Option::Some(p) => p,
        Option::None => {
            proof {
                assert forall|q: HistoryHookPayload|
                    line@ == #[trigger] enc_hook_payload(q) implies false by {
                    lemma_hook_shape(
                        line@,
                        q.command@,
                        q.cwd@,
                        q.exit_code as int,
                        q.duration_ms as int,
                        q.session_id@,
                        q.shell@,
                    );
                }
            }
            return Option::None;
        },
    };
    let (command, p1) = match p_string(&chars, p0) {
        Option::Some(v) => v,
        Option::None => {
            proof {
                assert forall|q: HistoryHookPayload|
                    line@ == #[trigger] enc_hook_payload(q) implies false by {
                    lemma_hook_shape(
                        line@,
                        q.command@,
                        q.cwd@,
                        q.exit_code as int,
                        q.duration_ms as int,
                        q.session_id@,
                        q.shell@,
                    );
                }
            }
            return Option::None;
        },
    };
    let p2 = match eat(&chars, p1, ",\"cwd\":") {
        Option::Some(p) => p,
        Option::None => {
            proof {
                assert forall|q: HistoryHookPayload|
                    line@ == #[trigger] enc_hook_payload(q) implies false by {
                    lemma_hook_shape(
                        line@,
                        q.command@,
                        q.cwd@,
                        q.exit_code as int,
                        q.duration_ms as int,
                        q.session_id@,
                        q.shell@,
                    );
                    assert(p1 == p0 + json_quoted(q.command@).len());
                }
            }
            return Option::None;
        },
    };
    let (cwd, p3) = match p_string(&chars, p2) {
        Option::Some(v) => v,
        Option::None => {
            proof {
                assert forall|q: HistoryHookPayload|
                    line@ == #[trigger] enc_hook_payload(q) implies false by {
                    lemma_hook_shape(
                        line@,
                        q.command@,
                        q.cwd@,
                        q.exit_code as int,
                        q.duration_ms as int,
                        q.session_id@,
                        q.shell@,
                    );
                    assert(p1 == p0 + json_quoted(q.command@).len());
                }
            }
            return Option::None;
        },
    };
    let p4 = match eat(&chars, p3, ",\"exit_code\":") {
        Option::Some(p) => p,
        Option::None => {
            proof {
                assert forall|q: HistoryHookPayload|
                    line@ == #[trigger] enc_hook_payload(q) implies false by {
                    lemma_hook_shape(
                        line@,
                        q.command@,
                        q.cwd@,
                        q.exit_code as int,
                        q.duration_ms as int,
                        q.session_id@,
                        q.shell@,
                    );
                    assert(p1 == p0 + json_quoted(q.command@).len());
                    assert(p3 == p2 + json_quoted(q.cwd@).len());
                }
            }
            return Option::None;
        },
    };
    let (exit_num, p5) = match p_num(&chars, p4) {
        Option::Some(v) => v,
        Option::None => {
            proof {
                assert forall|q: HistoryHookPayload|
                    line@ == #[trigger] enc_hook_payload(q) implies false by {
                    lemma_hook_shape(
                        line@,
                        q.command@,
                        q.cwd@,
                        q.exit_code as int,
                        q.duration_ms as int,
                        q.session_id@,
                        q.shell@,
                    );
                    assert(p1 == p0 + json_quoted(q.command@).len());
                    assert(p3 == p2 + json_quoted(q.cwd@).len());
                }
            }
            return Option::None;
        },
    };
    if exit_num < -2147483648i64 || exit_num > 2147483647i64 {
        proof {
                assert forall|q: HistoryHookPayload|
                    line@ == #[trigger] enc_hook_payload(q) implies false by {
                    lemma_hook_shape(
                        line@,
                        q.command@,
                        q.cwd@,
                        q.exit_code as int,
                        q.duration_ms as int,
                        q.session_id@,
                        q.shell@,
                    );
                    assert(p1 == p0 + json_quoted(q.command@).len());
                    assert(p3 == p2 + json_quoted(q.cwd@).len());
                    let w: i64 = q.exit_code as i64;
                    assert(line@.skip(p4 as int) == crate::strutil::dec_i64(w as int) + (
                    ",\"duration_ms\":"@ + (crate::strutil::dec_i64(q.duration_ms as int) + (
                    ",\"session_id\":"@ + (json_quoted(q.session_id@) + (",\"shell\":"@ + (
                    json_quoted(q.shell@) + "}"@)))))));
                    assert(p5 == p4 + crate::strutil::dec_i64(w as int).len() && exit_num == w);
                }
            }
            return Option::None;
    }
    let exit_code: i32 = exit_num as i32;
    let p6 = match eat(&chars, p5, ",\"duration_ms\":") {
        Option::Some(p) => p,
        Option::None => {
            proof {
                assert forall|q: HistoryHookPayload|
                    line@ == #[trigger] enc_hook_payload(q) implies false by {
                    lemma_hook_shape(
                        line@,
                        q.command@,
                        q.cwd@,
                        q.exit_code as int,
                        q.duration_ms as int,
                        q.session_id@,
                        q.shell@,
                    );
                    assert(p1 == p0 + json_quoted(q.command@).len());
                    assert(p3 == p2 + json_quoted(q.cwd@).len());
                    let w: i64 = q.exit_code as i64;
                    assert(line@.skip(p4 as int) == crate::strutil::dec_i64(w as int) + (
                    ",\"duration_ms\":"@ + (crate::strutil::dec_i64(q.duration_ms as int) + (
                    ",\"session_id\":"@ + (json_quoted(q.session_id@) + (",\"shell\":"@ + (
                    json_quoted(q.shell@) + "}"@)))))));
                    assert(p5 == p4 + crate::strutil::dec_i64(w as int).len() && exit_num == w);
                }
            }
            return Option::None;
        },
    };
    let (duration_ms, p7) = match p_num(&chars, p6) {
        Option::Some(v) => v,
        Option::None => {
            proof {
                assert forall|q: HistoryHookPayload|
                    line@ == #[trigger] enc_hook_payload(q) implies false by {
                    lemma_hook_shape(
                        line@,
                        q.command@,
                        q.cwd@,
                        q.exit_code as int,
                        q.duration_ms as int,
                        q.session_id@,
                        q.shell@,
                    );
                    assert(p1 == p0 + json_quoted(q.command@).len());
                    assert(p3 == p2 + json_quoted(q.cwd@).len());
                    let w: i64 = q.exit_code as i64;
                    assert(line@.skip(p4 as int) == crate::strutil::dec_i64(w as int) + (
                    ",\"duration_ms\":"@ + (crate::strutil::dec_i64(q.duration_ms as int) + (
                    ",\"session_id\":"@ + (json_quoted(q.session_id@) + (",\"shell\":"@ + (
                    json_quoted(q.shell@) + "}"@)))))));
                    assert(p5 == p4 + crate::strutil::dec_i64(w as int).len() && exit_num == w);
                }
            }
            return Option::None;
        },
    };
    let p8 = match eat(&chars, p7, ",\"session_id\":") {
        Option::Some(p) => p,
        Option::None => {
            proof {
                assert forall|q: HistoryHookPayload|
                    line@ == #[trigger] enc_hook_payload(q) implies false by {
                    lemma_hook_shape(
                        line@,
                        q.command@,
                        q.cwd@,
                        q.exit_code as int,
                        q.duration_ms as int,
                        q.session_id@,
                        q.shell@,
                    );
                    assert(p1 == p0 + json_quoted(q.command@).len());
                    assert(p3 == p2 + json_quoted(q.cwd@).len());
                    let w: i64 = q.exit_code as i64;
                    assert(line@.skip(p4 as int) == crate::strutil::dec_i64(w as int) + (
                    ",\"duration_ms\":"@ + (crate::strutil::dec_i64(q.duration_ms as int) + (
                    ",\"session_id\":"@ + (json_quoted(q.session_id@) + (",\"shell\":"@ + (
                    json_quoted(q.shell@) + "}"@)))))));
                    assert(p5 == p4 + crate::strutil::dec_i64(w as int).len() && exit_num == w);
                    let w: i64 = q.duration_ms;
                    assert(line@.skip(p6 as int) == crate::strutil::dec_i64(w as int) + (
                    ",\"session_id\":"@ + (json_quoted(q.session_id@) + (",\"shell\":"@ + (
                    json_quoted(q.shell@) + "}"@)))));
                    assert(p7 == p6 + crate::strutil::dec_i64(w as int).len() && duration_ms == w);
                }
            }
            return Option::None;
        },
    };
    let (session_id, p9) = match p_string(&chars, p8) {
        Option::Some(v) => v,
        Option::None => {
            proof {
                assert forall|q: HistoryHookPayload|
                    line@ == #[trigger] enc_hook_payload(q) implies false by {
                    lemma_hook_shape(
                        line@,
                        q.command@,
                        q.cwd@,
                        q.exit_code as int,
                        q.duration_ms as int,
                        q.session_id@,
                        q.shell@,
                    );
                    assert(p1 == p0 + json_quoted(q.command@).len());
                    assert(p3 == p2 + json_quoted(q.cwd@).len());
                    let w: i64 = q.exit_code as i64;
                    assert(line@.skip(p4 as int) == crate::strutil::dec_i64(w as int) + (
                    ",\"duration_ms\":"@ + (crate::strutil::dec_i64(q.duration_ms as int) + (
                    ",\"session_id\":"@ + (json_quoted(q.session_id@) + (",\"shell\":"@ + (
                    json_quoted(q.shell@) + "}"@)))))));
                    assert(p5 == p4 + crate::strutil::dec_i64(w as int).len() && exit_num == w);
                    let w: i64 = q.duration_ms;
                    assert(line@.skip(p6 as int) == crate::strutil::dec_i64(w as int) + (
                    ",\"session_id\":"@ + (json_quoted(q.session_id@) + (",\"shell\":"@ + (
                    json_quoted(q.shell@) + "}"@)))));
                    assert(p7 == p6 + crate::strutil::dec_i64(w as int).len() && duration_ms == w);
                }
            }
            return Option::None;
        },
    };
    let p10 = match eat(&chars, p9, ",\"shell\":") {
        Option::Some(p) => p,
        Option::None => {
            proof {
                assert forall|q: HistoryHookPayload|
                    line@ == #[trigger] enc_hook_payload(q) implies false by {
                    lemma_hook_shape(
                        line@,
                        q.command@,
                        q.cwd@,
                        q.exit_code as int,
                        q.duration_ms as int,
                        q.session_id@,
                        q.shell@,
                    );
                    assert(p1 == p0 + json_quoted(q.command@).len());
                    assert(p3 == p2 + json_quoted(q.cwd@).len());
                    let w: i64 = q.exit_code as i64;
                    assert(line@.skip(p4 as int) == crate::strutil::dec_i64(w as int) + (
                    ",\"duration_ms\":"@ + (crate::strutil::dec_i64(q.duration_ms as int) + (
                    ",\"session_id\":"@ + (json_quoted(q.session_id@) + (",\"shell\":"@ + (
                    json_quoted(q.shell@) + "}"@)))))));
                    assert(p5 == p4 + crate::strutil::dec_i64(w as int).len() && exit_num == w);
                    let w: i64 = q.duration_ms;
                    assert(line@.skip(p6 as int) == crate::strutil::dec_i64(w as int) + (
                    ",\"session_id\":"@ + (json_quoted(q.session_id@) + (",\"shell\":"@ + (
                    json_quoted(q.shell@) + "}"@)))));
                    assert(p7 == p6 + crate::strutil::dec_i64(w as int).len() && duration_ms == w);
                    assert(p9 == p8 + json_quoted(q.session_id@).len());
                }
            }
            return Option::None;
        },
    };
    let (shell, p11) = match p_string(&chars, p10) {
        Option::Some(v) => v,
        Option::None => {
            proof {
                assert forall|q: HistoryHookPayload|
                    line@ == #[trigger] enc_hook_payload(q) implies false by {
                    lemma_hook_shape(
                        line@,
                        q.command@,
                        q.cwd@,
                        q.exit_code as int,
                        q.duration_ms as int,
                        q.session_id@,
                        q.shell@,
                    );
                    assert(p1 == p0 + json_quoted(q.command@).len());
                    assert(p3 == p2 + json_quoted(q.cwd@).len());
                    let w: i64 = q.exit_code as i64;
                    assert(line@.skip(p4 as int) == crate::strutil::dec_i64(w as int) + (
                    ",\"duration_ms\":"@ + (crate::strutil::dec_i64(q.duration_ms as int) + (
                    ",\"session_id\":"@ + (json_quoted(q.session_id@) + (",\"shell\":"@ + (
                    json_quoted(q.shell@) + "}"@)))))));
                    assert(p5 == p4 + crate::strutil::dec_i64(w as int).len() && exit_num == w);
                    let w: i64 = q.duration_ms;
                    assert(line@.skip(p6 as int) == crate::strutil::dec_i64(w as int) + (
                    ",\"session_id\":"@ + (json_quoted(q.session_id@) + (",\"shell\":"@ + (
                    json_quoted(q.shell@) + "}"@)))));
                    assert(p7 == p6 + crate::strutil::dec_i64(w as int).len() && duration_ms == w);
                    assert(p9 == p8 + json_quoted(q.session_id@).len());
                }
            }
            return Option::None;
        },
    };
    if eat(&chars, p11, "}").is_none() {
        proof {
                assert forall|q: HistoryHookPayload|
                    line@ == #[trigger] enc_hook_payload(q) implies false by {
                    lemma_hook_shape(
                        line@,
                        q.command@,
                        q.cwd@,
                        q.exit_code as int,
                        q.duration_ms as int,
                        q.session_id@,
                        q.shell@,
                    );
                    assert(p1 == p0 + json_quoted(q.command@).len());
                    assert(p3 == p2 + json_quoted(q.cwd@).len());
                    let w: i64 = q.exit_code as i64;
                    assert(line@.skip(p4 as int) == crate::strutil::dec_i64(w as int) + (
                    ",\"duration_ms\":"@ + (crate::strutil::dec_i64(q.duration_ms as int) + (
                    ",\"session_id\":"@ + (json_quoted(q.session_id@) + (",\"shell\":"@ + (
                    json_quoted(q.shell@) + "}"@)))))));
                    assert(p5 == p4 + crate::strutil::dec_i64(w as int).len() && exit_num == w);
                    let w: i64 = q.duration_ms;
                    assert(line@.skip(p6 as int) == crate::strutil::dec_i64(w as int) + (
                    ",\"session_id\":"@ + (json_quoted(q.session_id@) + (",\"shell\":"@ + (
                    json_quoted(q.shell@) + "}"@)))));
                    assert(p7 == p6 + crate::strutil::dec_i64(w as int).len() && duration_ms == w);
                    assert(p9 == p8 + json_quoted(q.session_id@).len());
                    assert(p11 == p10 + json_quoted(q.shell@).len());
                }
            }
            return Option::None;
    }
    let payload = HistoryHookPayload { command, cwd, exit_code, duration_ms, session_id, shell };
    let re = encode_hook_payload(&payload);
    if str_eq(re.as_str(), line) {
        Option::Some(payload)
    } else {
        proof {
                assert forall|q: HistoryHookPayload|
                    line@ == #[trigger] enc_hook_payload(q) implies false by {
                    lemma_hook_shape(
                        line@,
                        q.command@,
                        q.cwd@,
                        q.exit_code as int,
                        q.duration_ms as int,
                        q.session_id@,
                        q.shell@,
                    );
                    assert(p1 == p0 + json_quoted(q.command@).len());
                    assert(p3 == p2 + json_quoted(q.cwd@).len());
                    let w: i64 = q.exit_code as i64;
                    assert(line@.skip(p4 as int) == crate::strutil::dec_i64(w as int) + (
                    ",\"duration_ms\":"@ + (crate::strutil::dec_i64(q.duration_ms as int) + (
                    ",\"session_id\":"@ + (json_quoted(q.session_id@) + (",\"shell\":"@ + (
                    json_quoted(q.shell@) + "}"@)))))));
                    assert(p5 == p4 + crate::strutil::dec_i64(w as int).len() && exit_num == w);
                    let w: i64 = q.duration_ms;
                    assert(line@.skip(p6 as int) == crate::strutil::dec_i64(w as int) + (
                    ",\"session_id\":"@ + (json_quoted(q.session_id@) + (",\"shell\":"@ + (
                    json_quoted(q.shell@) + "}"@)))));
                    assert(p7 == p6 + crate::strutil::dec_i64(w as int).len() && duration_ms == w);
                    assert(p9 == p8 + json_quoted(q.session_id@).len());
                    assert(p11 == p10 + json_quoted(q.shell@).len());
                }
            }
            return Option::None;
    }
}


/// The wire text of an authentication, ping, or key-exchange frame pins the
/// frame: serializing and then deserializing such a frame can only give
/// back its own tag and payload, because two different frames of these
/// kinds never share a text. Together with the decoders' guarantee that a
/// decoded frame re-encodes to the input, a round trip returns the
/// original frame.
#[verifier::rlimit(100)]
#[verifier::spinoff_prover]
pub proof fn lemma_wire_text_pins_key_frames(m1: ClientMessage, m2: ClientMessage)
    requires
        enc_client(m1) == enc_client(m2),
        m1 is Auth || m1 is Ping || m1 is KeyRequest || m1 is KeyResponse,
        m2 is Auth || m2 is Ping || m2 is KeyRequest || m2 is KeyResponse,
    ensures
        (match m1 {
            ClientMessage::Auth { token: t1 } => (m2 matches ClientMessage::Auth { token: t2 }
                && t1@ == t2@),
            ClientMessage::Ping => m2 is Ping,
            ClientMessage::KeyRequest { group_name: g1, public_key: p1 } => (m2
                matches ClientMessage::KeyRequest { group_name: g2, public_key: p2 } && g1@ == g2@
                && p1@ == p2@),
            ClientMessage::KeyResponse { group_name: g1, target_machine_id: t1, wrapped_key: w1 } => (
            m2 matches ClientMessage::KeyResponse {
                group_name: g2,
                target_machine_id: t2,
                wrapped_key: w2,
            } && g1@ == g2@ && t1@ == t2@ && w1@ == w2@),
            _ => true,
        }),
{
    reveal_strlit("{\"type\":\"auth\",\"token\":");
    reveal_strlit("{\"type\":\"ping\"}");
    reveal_strlit("{\"type\":\"key_request\",\"group_name\":");
    reveal_strlit("{\"type\":\"key_response\",\"group_name\":");
    reveal_strlit(",\"public_key\":");
    reveal_strlit(",\"target_machine_id\":");
    reveal_strlit(",\"wrapped_key\":");
    reveal_strlit("}");
    let e1 = enc_client(m1);
    let e2 = enc_client(m2);
    match (m1, m2) {
        (ClientMessage::Auth { token: t1 }, ClientMessage::Auth { token: t2 }) => {
            let lit = "{\"type\":\"auth\",\"token\":"@;
            assert(e1.skip(lit.len() as int) =~= json_quoted(t1@) + "}"@);
            assert(e2.skip(lit.len() as int) =~= json_quoted(t2@) + "}"@);
            crate::jsontext::lemma_quoted_prefix(t1@, t2@, "}"@, "}"@);
        },
        (ClientMessage::Ping, ClientMessage::Ping) => {},
        (
            ClientMessage::KeyRequest { group_name: g1, public_key: p1 },
            ClientMessage::KeyRequest { group_name: g2, public_key: p2 },
        ) => {
            let lit = "{\"type\":\"key_request\",\"group_name\":"@;
            let mid = ",\"public_key\":"@;
            assert(e1.skip(lit.len() as int) =~= json_quoted(g1@) + (mid + json_quoted(p1@)
                + "}"@));
            assert(e2.skip(lit.len() as int) =~= json_quoted(g2@) + (mid + json_quoted(p2@)
                + "}"@));
            crate::jsontext::lemma_quoted_prefix(
                g1@,
                g2@,
                mid + json_quoted(p1@) + "}"@,
                mid + json_quoted(p2@) + "}"@,
            );
            let r1 = mid + json_quoted(p1@) + "}"@;
            let r2 = mid + json_quoted(p2@) + "}"@;
            assert(r1.skip(mid.len() as int) =~= json_quoted(p1@) + "}"@);
            assert(r2.skip(mid.len() as int) =~= json_quoted(p2@) + "}"@);
            crate::jsontext::lemma_quoted_prefix(p1@, p2@, "}"@, "}"@);
        },
        (
            ClientMessage::KeyResponse { group_name: g1, target_machine_id: t1, wrapped_key: w1 },
            ClientMessage::KeyResponse { group_name: g2, target_machine_id: t2, wrapped_key: w2 },
        ) => {
            let lit = "{\"type\":\"key_response\",\"group_name\":"@;
            let mid1 = ",\"target_machine_id\":"@;
            let mid2 = ",\"wrapped_key\":"@;
            assert(e1.skip(lit.len() as int) =~= json_quoted(g1@) + (mid1 + json_quoted(t1@)
                + mid2 + json_quoted(w1@) + "}"@));
            assert(e2.skip(lit.len() as int) =~= json_quoted(g2@) + (mid1 + json_quoted(t2@)
                + mid2 + json_quoted(w2@) + "}"@));
            crate::jsontext::lemma_quoted_prefix(
                g1@,
                g2@,
                mid1 + json_quoted(t1@) + mid2 + json_quoted(w1@) + "}"@,
                mid1 + json_quoted(t2@) + mid2 + json_quoted(w2@) + "}"@,
            );
            let r1 = mid1 + json_quoted(t1@) + mid2 + json_quoted(w1@) + "}"@;
            let r2 = mid1 + json_quoted(t2@) + mid2 + json_quoted(w2@) + "}"@;
            assert(r1.skip(mid1.len() as int) =~= json_quoted(t1@) + (mid2 + json_quoted(w1@)
                + "}"@));
            assert(r2.skip(mid1.len() as int) =~= json_quoted(t2@) + (mid2 + json_quoted(w2@)
                + "}"@));
            crate::jsontext::lemma_quoted_prefix(
                t1@,
                t2@,
                mid2 + json_quoted(w1@) + "}"@,
                mid2 + json_quoted(w2@) + "}"@,
            );
            let s1 = mid2 + json_quoted(w1@) + "}"@;
            let s2 = mid2 + json_quoted(w2@) + "}"@;
            assert(s1.skip(mid2.len() as int) =~= json_quoted(w1@) + "}"@);
            assert(s2.skip(mid2.len() as int) =~= json_quoted(w2@) + "}"@);
            crate::jsontext::lemma_quoted_prefix(w1@, w2@, "}"@, "}"@);
        },
        _ => {
            assert(false) by {
                assert(e1 == e2);
                assert(e1.len() > 9 && e2.len() > 9);
                assert(e1[9] == e2[9]);
                assert(e1.len() > 15 && e2.len() > 15 ==> e1[15] == e2[15]);
            }
        },
    }
}


/// Equal texts of the shape `lit Q(a1) m1 Q(a2) m2 Q(a3) "}}"` carry the
/// same three strings.
#[verifier::rlimit(100)]
#[verifier::spinoff_prover]
proof fn lemma_three_quoted_pins(
    lit: Seq<char>,
    mid1: Seq<char>,
    mid2: Seq<char>,
    a1: Seq<char>,
    a2: Seq<char>,
    a3: Seq<char>,
    b1: Seq<char>,
    b2: Seq<char>,
    b3: Seq<char>,
)
    requires
        lit + json_quoted(a1) + mid1 + json_quoted(a2) + mid2 + json_quoted(a3) + "}}"@ == lit
            + json_quoted(b1) + mid1 + json_quoted(b2) + mid2 + json_quoted(b3) + "}}"@,
    ensures
        a1 == b1,
        a2 == b2,
        a3 == b3,
{
    let e1 = lit + json_quoted(a1) + mid1 + json_quoted(a2) + mid2 + json_quoted(a3) + "}}"@;
    let e2 = lit + json_quoted(b1) + mid1 + json_quoted(b2) + mid2 + json_quoted(b3) + "}}"@;
    assert(e1.skip(lit.len() as int) =~= json_quoted(a1) + (mid1 + json_quoted(a2) + mid2
        + json_quoted(a3) + "}}"@));
    assert(e2.skip(lit.len() as int) =~= json_quoted(b1) + (mid1 + json_quoted(b2) + mid2
        + json_quoted(b3) + "}}"@));
    crate::jsontext::lemma_quoted_prefix(
        a1,
        b1,
        mid1 + json_quoted(a2) + mid2 + json_quoted(a3) + "}}"@,
        mid1 + json_quoted(b2) + mid2 + json_quoted(b3) + "}}"@,
    );
    let r1 = mid1 + json_quoted(a2) + mid2 + json_quoted(a3) + "}}"@;
    let r2 = mid1 + json_quoted(b2) + mid2 + json_quoted(b3) + "}}"@;
    assert(r1.skip(mid1.len() as int) =~= json_quoted(a2) + (mid2 + json_quoted(a3) + "}}"@));
    assert(r2.skip(mid1.len() as int) =~= json_quoted(b2) + (mid2 + json_quoted(b3) + "}}"@));
    crate::jsontext::lemma_quoted_prefix(
        a2,
        b2,
        mid2 + json_quoted(a3) + "}}"@,
        mid2 + json_quoted(b3) + "}}"@,
    );
    let s1 = mid2 + json_quoted(a3) + "}}"@;
    let s2 = mid2 + json_quoted(b3) + "}}"@;
    assert(s1.skip(mid2.len() as int) =~= json_quoted(a3) + "}}"@);
    assert(s2.skip(mid2.len() as int) =~= json_quoted(b3) + "}}"@);
    crate::jsontext::lemma_quoted_prefix(a3, b3, "}}"@, "}}"@);
}

/// The wire text of a relayed key-exchange event (and of the two
/// string-payload notices) pins the event: no two different such events
/// share a text, so a round trip through the codec returns the original.
#[verifier::rlimit(100)]
#[verifier::spinoff_prover]
pub proof fn lemma_wire_text_pins_key_events(m1: ServerEvent, m2: ServerEvent)
    requires
        enc_server(m1) == enc_server(m2),
        m1 is AuthFailed || m1 is SyncRequired || m1 is KeyRequestEvent || m1 is KeyResponseEvent,
        m2 is AuthFailed || m2 is SyncRequired || m2 is KeyRequestEvent || m2 is KeyResponseEvent,
    ensures
        (match m1 {
            ServerEvent::AuthFailed { data: d1 } => (m2 matches ServerEvent::AuthFailed {
                data: d2,
            } && d1.error@ == d2.error@),
            ServerEvent::SyncRequired { data: d1 } => (m2 matches ServerEvent::SyncRequired {
                data: d2,
            } && d1.message@ == d2.message@),
            ServerEvent::KeyRequestEvent { data: d1 } => (m2
                matches ServerEvent::KeyRequestEvent { data: d2 } && d1.group_name@
                == d2.group_name@ && d1.requester_machine_id@ == d2.requester_machine_id@
                && d1.public_key@ == d2.public_key@),
            ServerEvent::KeyResponseEvent { data: d1 } => (m2
                matches ServerEvent::KeyResponseEvent { data: d2 } && d1.group_name@
                == d2.group_name@ && d1.wrapped_key@ == d2.wrapped_key@ && d1.sender_public_key@
                == d2.sender_public_key@),
            _ => true,
        }),
{
    reveal_strlit("{\"event\":\"auth_failed\",\"data\":{\"error\":");
    reveal_strlit("{\"event\":\"sync_required\",\"data\":{\"message\":");
    reveal_strlit("{\"event\":\"key_request\",\"data\":{\"group_name\":");
    reveal_strlit("{\"event\":\"key_response\",\"data\":{\"group_name\":");
    reveal_strlit(",\"requester_machine_id\":");
    reveal_strlit(",\"public_key\":");
    reveal_strlit(",\"wrapped_key\":");
    reveal_strlit(",\"sender_public_key\":");
    reveal_strlit("}}");
    let e1 = enc_server(m1);
    let e2 = enc_server(m2);
    match (m1, m2) {
        (ServerEvent::AuthFailed { data: d1 }, ServerEvent::AuthFailed { data: d2 }) => {
            let lit = "{\"event\":\"auth_failed\",\"data\":{\"error\":"@;
            assert(e1.skip(lit.len() as int) =~= json_quoted(d1.error@) + "}}"@);
            assert(e2.skip(lit.len() as int) =~= json_quoted(d2.error@) + "}}"@);
            crate::jsontext::lemma_quoted_prefix(d1.error@, d2.error@, "}}"@, "}}"@);
        },
        (ServerEvent::SyncRequired { data: d1 }, ServerEvent::SyncRequired { data: d2 }) => {
            let lit = "{\"event\":\"sync_required\",\"data\":{\"message\":"@;
            assert(e1.skip(lit.len() as int) =~= json_quoted(d1.message@) + "}}"@);
            assert(e2.skip(lit.len() as int) =~= json_quoted(d2.message@) + "}}"@);
            crate::jsontext::lemma_quoted_prefix(d1.message@, d2.message@, "}}"@, "}}"@);
        },
        (
            ServerEvent::KeyRequestEvent { data: d1 },
            ServerEvent::KeyRequestEvent { data: d2 },
        ) => {
            lemma_three_quoted_pins(
                "{\"event\":\"key_request\",\"data\":{\"group_name\":"@,
                ",\"requester_machine_id\":"@,
                ",\"public_key\":"@,
                d1.group_name@,
                d1.requester_machine_id@,
                d1.public_key@,
                d2.group_name@,
                d2.requester_machine_id@,
                d2.public_key@,
            );
        },
        (
            ServerEvent::KeyResponseEvent { data: d1 },
            ServerEvent::KeyResponseEvent { data: d2 },
        ) => {
            lemma_three_quoted_pins(
                "{\"event\":\"key_response\",\"data\":{\"group_name\":"@,
                ",\"wrapped_key\":"@,
                ",\"sender_public_key\":"@,
                d1.group_name@,
                d1.wrapped_key@,
                d1.sender_public_key@,
                d2.group_name@,
                d2.wrapped_key@,
                d2.sender_public_key@,
            );
        },
        _ => {
            assert(false) by {
                assert(e1 == e2);
                assert(e1.len() > 16 && e2.len() > 16);
                assert(e1[10] == e2[10]);
                assert(e1[11] == e2[11]);
                assert(e1[14] == e2[14]);
                assert(e1[15] == e2[15]);
                assert(e1[16] == e2[16]);
            }
        },
    }
}

} // verus!
