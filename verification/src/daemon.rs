use vstd::prelude::*;

use crate::crypto::{b64_of, wrapped_key_blob, KeyStore};
use crate::models::{
    clone_history_entry, history_like, Alias, HistoryEntry, HistoryHookPayload,
};
use crate::protocol::{ClientMessage, ServerEvent};
use crate::shell::{spec_format_alias, ShellType};
use crate::strutil::spec_contains_str;

verus! {

/// What the daemon decides to do with one inbound event. The caller
/// performs the I/O: a full alias fetch for a reconcile, a channel send,
/// a history insert.
pub enum DaemonAction {
    /// Fetch the full alias list and rewrite the shell file.
    Resync,
    /// Ask the group's members for its key.
    RequestKey { group: String },
    /// Insert these entries into the local history store.
    StoreHistory { entries: Vec<HistoryEntry> },
    /// Decrypt these wire entries, then insert what decrypts.
    StoreEncryptedHistory { entries: Vec<crate::models::EncryptedHistoryEntry> },
    /// Send this frame on the event channel.
    Send { message: ClientMessage },
}

/// The next reconnect delay: the current one doubled, capped at the
/// schedule's ceiling of sixty seconds.
pub fn next_backoff(current_secs: u64) -> (r: u64)
    requires
        1 <= current_secs <= 60,
    ensures
        r == if current_secs * 2 <= 60 {
            current_secs * 2
        } else {
            60
        },
        1 <= r <= 60,
{
    if current_secs * 2 <= 60 {
        current_secs * 2
    } else {
        60
    }
}

/// Stamps a hook payload into a full history entry: the daemon adds its
/// machine id, hostname, the current time, its first configured group, and
/// a fresh unique id minted by the caller.
pub fn entry_from_payload(
    payload: &HistoryHookPayload,
    id: &str,
    machine_id: &str,
    hostname: &str,
    group_name: &str,
    now_ms: i64,
) -> (r: HistoryEntry)
    ensures
        r.id@ == id@,
        r.command@ == payload.command@,
        r.cwd@ == payload.cwd@,
        r.exit_code == payload.exit_code,
        r.duration_ms == payload.duration_ms,
        r.session_id@ == payload.session_id@,
        r.machine_id@ == machine_id@,
        r.hostname@ == hostname@,
        r.timestamp == now_ms,
        r.shell@ == payload.shell@,
        r.group_name@ == group_name@,
{
    HistoryEntry {
        id: String::from_str(id),
        command: payload.command.clone(),
        cwd: payload.cwd.clone(),
        exit_code: payload.exit_code,
        duration_ms: payload.duration_ms,
        session_id: payload.session_id.clone(),
        machine_id: String::from_str(machine_id),
        hostname: String::from_str(hostname),
        timestamp: now_ms,
        shell: payload.shell.clone(),
        group_name: String::from_str(group_name),
    }
}

/// The configured groups the key store holds no key for, in configuration
/// order.
pub fn missing_key_groups(groups: &Vec<String>, ks: &KeyStore) -> (r: Vec<String>)
    ensures
        forall|k: int|
            0 <= k < r@.len() ==> !ks.spec_has_group_key(#[trigger] r@[k]@) && spec_contains_str(
                groups@,
                r@[k]@,
            ),
        forall|i: int|
            0 <= i < groups@.len() && !ks.spec_has_group_key(#[trigger] groups@[i]@) ==> (exists|
                k: int,
            |
                0 <= k < r@.len() && #[trigger] r@[k]@ == groups@[i]@),
{
    let mut r: Vec<String> = Vec::new();
    let mut i: usize = 0;
    while i < groups.len()
        invariant
            i <= groups@.len(),
            forall|k: int|
                0 <= k < r@.len() ==> !ks.spec_has_group_key(#[trigger] r@[k]@)
                    && spec_contains_str(groups@, r@[k]@),
            forall|j: int|
                0 <= j < i && !ks.spec_has_group_key(#[trigger] groups@[j]@) ==> (exists|k: int|
                    0 <= k < r@.len() && #[trigger] r@[k]@ == groups@[j]@),
        decreases groups@.len() - i,
    {
        if !ks.has_group_key(groups[i].as_str()) {
            let ghost r_prev = r@;
            r.push(groups[i].clone());
            proof {
                assert(r@.last()@ == groups@[i as int]@);
                assert(forall|k: int| 0 <= k < r_prev.len() ==> r@[k] == r_prev[k]);
                assert forall|j: int|
                    0 <= j < i + 1 && !ks.spec_has_group_key(#[trigger] groups@[j]@) implies (
                exists|k: int| 0 <= k < r@.len() && #[trigger] r@[k]@ == groups@[j]@) by {
                    if j < i {
                        let w = choose|w: int| 0 <= w < r_prev.len() && r_prev[w]@ == groups@[j]@;
                        assert(r@[w]@ == groups@[j]@);
                    } else {
                        assert(r@[r@.len() - 1]@ == groups@[j]@);
                    }
                }
            }
        }
        i += 1;
    }
    r
}

/// Decides what to do with one inbound event. Alias-change events and
/// reconcile hints always map to exactly one full reconcile, so applying
/// the same event once more decides the same single reconcile again; the
/// daemon never edits the shell file incrementally.
pub fn handle_server_event(
    ks: &mut KeyStore,
    machine_id: &str,
    groups: &Vec<String>,
    event: &ServerEvent,
) -> (r: Vec<DaemonAction>)
    requires
        old(ks).wf(),
    ensures
        final(ks).wf(),
        (match event {
            ServerEvent::AuthSuccess { .. } => {
                &&& r@.len() >= 1
                &&& (r@.last() is Resync)
                &&& (forall|k: int|
                    0 <= k < r@.len() - 1 ==> (#[trigger] r@[k] matches DaemonAction::RequestKey {
                        group,
                    } && !old(ks).spec_has_group_key(group@) && spec_contains_str(
                        groups@,
                        group@,
                    )))
                &&& (forall|i: int|
                    0 <= i < groups@.len() && !old(ks).spec_has_group_key(#[trigger] groups@[i]@)
                        ==> (exists|k: int|
                        0 <= k < r@.len() - 1 && (#[trigger] r@[k]
                            matches DaemonAction::RequestKey { group } && group@ == groups@[i]@)))
                &&& *final(ks) == *old(ks)
            },
            ServerEvent::AliasAdded { .. } => r@.len() == 1 && (r@[0] is Resync) && *final(ks)
                == *old(ks),
            ServerEvent::AliasUpdated { .. } => r@.len() == 1 && (r@[0] is Resync) && *final(ks)
                == *old(ks),
            ServerEvent::AliasDeleted { .. } => r@.len() == 1 && (r@[0] is Resync) && *final(ks)
                == *old(ks),
            ServerEvent::SyncRequired { .. } => r@.len() == 1 && (r@[0] is Resync) && *final(ks)
                == *old(ks),
            ServerEvent::AuthFailed { .. } => r@.len() == 0 && *final(ks) == *old(ks),
            ServerEvent::Pong { .. } => r@.len() == 0 && *final(ks) == *old(ks),
            ServerEvent::HistorySync { data } => {
                &&& r@.len() == 1
                &&& (r@[0] matches DaemonAction::StoreHistory { entries } && entries@.len()
                    == data.entries@.len() && (forall|j: int|
                    0 <= j < entries@.len() ==> history_like(
                        #[trigger] entries@[j],
                        data.entries@[j],
                    )))
                &&& *final(ks) == *old(ks)
            },
            ServerEvent::HistorySyncEncrypted { data } => {
                &&& r@.len() == 1
                &&& (r@[0] matches DaemonAction::StoreEncryptedHistory { entries }
                    && entries@.len() == data.entries@.len())
                &&& *final(ks) == *old(ks)
            },
            ServerEvent::HistoryPage { .. } => r@.len() == 0 && *final(ks) == *old(ks),
            ServerEvent::KeyRequestEvent { data } => {
                &&& (!old(ks).spec_has_group_key(data.group_name@) ==> r@.len() == 0)
                &&& (forall|k: int|
                    0 <= k < r@.len() ==> (#[trigger] r@[k] matches DaemonAction::Send { message }
                        && message matches ClientMessage::KeyResponse {
                        group_name,
                        target_machine_id,
                        wrapped_key,
                    } && group_name@ == data.group_name@ && target_machine_id@
                        == data.requester_machine_id@ && (forall|pk: Seq<u8>|
                        pk.len() == 32 && data.public_key@ == #[trigger] b64_of(pk) ==> (exists|
                            nonce: Seq<u8>,
                        |
                            nonce.len() == 12 && wrapped_key@ == #[trigger] wrapped_key_blob(
                                crate::crypto::dh_shared(old(ks).secret@, pk),
                                nonce,
                                old(ks).spec_group_key(data.group_name@),
                            )))))
                &&& (old(ks).spec_has_group_key(data.group_name@) && data.public_key@.len() > 0
                    && (exists|pk: Seq<u8>|
                    pk.len() == 32 && data.public_key@ == #[trigger] b64_of(pk)) ==> r@.len()
                    == 1)
                &&& *final(ks) == *old(ks)
            },
            ServerEvent::KeyResponseEvent { data } => {
                &&& r@.len() == 0
                &&& final(ks).secret@ == old(ks).secret@
                &&& (forall|sender_secret: Seq<u8>, nonce: Seq<u8>, gk: Seq<u8>|
                    {
                        &&& sender_secret.len() == 32
                        &&& crate::crypto::x25519_pub(sender_secret).len() == 32
                        &&& nonce.len() == 12
                        &&& gk.len() == 32
                        &&& data.sender_public_key@ == b64_of(
                            crate::crypto::x25519_pub(sender_secret),
                        )
                        &&& data.wrapped_key@ == #[trigger] wrapped_key_blob(
                            crate::crypto::dh_shared(
                                sender_secret,
                                crate::crypto::x25519_pub(old(ks).secret@),
                            ),
                            nonce,
                            gk,
                        )
                    } ==> final(ks).spec_has_group_key(data.group_name@))
            },
        }),
{
    match event {
        ServerEvent::AuthSuccess { .. } => {
            let missing = missing_key_groups(groups, ks);
            let mut r: Vec<DaemonAction> = Vec::new();
            let mut i: usize = 0;
            while i < missing.len()
                invariant
                    old(ks).wf(),
                    *ks == *old(ks),
                    i <= missing@.len(),
                    r@.len() == i,
                    forall|k: int|
                        0 <= k < missing@.len() ==> !ks.spec_has_group_key(
                            #[trigger] missing@[k]@,
                        ) && spec_contains_str(groups@, missing@[k]@),
                    forall|j: int|
                        0 <= j < groups@.len() && !ks.spec_has_group_key(#[trigger] groups@[j]@)
                            ==> (exists|k: int|
                            0 <= k < missing@.len() && #[trigger] missing@[k]@ == groups@[j]@),
                    forall|k: int|
                        0 <= k < i ==> (#[trigger] r@[k] matches DaemonAction::RequestKey { group }
                            && !ks.spec_has_group_key(group@) && spec_contains_str(
                            groups@,
                            group@,
                        ) && group@ == missing@[k]@),
                decreases missing@.len() - i,
            {
                r.push(DaemonAction::RequestKey { group: missing[i].clone() });
                i += 1;
            }
            let ghost r_before = r@;
            r.push(DaemonAction::Resync);
            proof {
                assert forall|j: int|
                    0 <= j < groups@.len() && !ks.spec_has_group_key(#[trigger] groups@[j]@)
                        implies (exists|k: int|
                    0 <= k < r@.len() - 1 && (#[trigger] r@[k] matches DaemonAction::RequestKey {
                        group,
                    } && group@ == groups@[j]@)) by {
                    let w = choose|w: int|
                        0 <= w < missing@.len() && #[trigger] missing@[w]@ == groups@[j]@;
                    assert(r@[w] == r_before[w]);
                    assert(r@[w] matches DaemonAction::RequestKey { group } && group@
                        == groups@[j]@);
                }
            }
            r
        },
        ServerEvent::AliasAdded { .. } => {
            let mut r: Vec<DaemonAction> = Vec::new();
            r.push(DaemonAction::Resync);
            r
        },
        ServerEvent::AliasUpdated { .. } => {
            let mut r: Vec<DaemonAction> = Vec::new();
            r.push(DaemonAction::Resync);
            r
        },
        ServerEvent::AliasDeleted { .. } => {
            let mut r: Vec<DaemonAction> = Vec::new();
            r.push(DaemonAction::Resync);
            r
        },
        ServerEvent::SyncRequired { .. } => {
            let mut r: Vec<DaemonAction> = Vec::new();
            r.push(DaemonAction::Resync);
            r
        },
        ServerEvent::AuthFailed { .. } => Vec::new(),
        ServerEvent::Pong { .. } => Vec::new(),
        ServerEvent::HistoryPage { .. } => Vec::new(),
        ServerEvent::HistorySync { data } => {
            let mut entries: Vec<HistoryEntry> = Vec::new();
            let mut i: usize = 0;
            while i < data.entries.len()
                invariant
                    i <= data.entries@.len(),
                    entries@.len() == i,
                    forall|j: int|
                        0 <= j < i ==> history_like(#[trigger] entries@[j], data.entries@[j]),
                decreases data.entries@.len() - i,
            {
                entries.push(clone_history_entry(&data.entries[i]));
                i += 1;
            }
            let mut r: Vec<DaemonAction> = Vec::new();
            r.push(DaemonAction::StoreHistory { entries });
            r
        },
        ServerEvent::HistorySyncEncrypted { data } => {
            let mut entries: Vec<crate::models::EncryptedHistoryEntry> = Vec::new();
            let mut i: usize = 0;
            while i < data.entries.len()
                invariant
                    i <= data.entries@.len(),
                    entries@.len() == i,
                decreases data.entries@.len() - i,
            {
                entries.push(crate::models::clone_encrypted_history_entry(&data.entries[i]));
                i += 1;
            }
            let mut r: Vec<DaemonAction> = Vec::new();
            r.push(DaemonAction::StoreEncryptedHistory { entries });
            r
        },
        ServerEvent::KeyRequestEvent { data } => {
            let mut r: Vec<DaemonAction> = Vec::new();
            if ks.has_group_key(data.group_name.as_str()) && !data.public_key.as_str().is_empty() {
                match ks.wrap_group_key(data.group_name.as_str(), data.public_key.as_str()) {
                    Result::Ok(wrapped) => {
                        r.push(
                            DaemonAction::Send {
                                message: ClientMessage::KeyResponse {
                                    group_name: data.group_name.clone(),
                                    target_machine_id: data.requester_machine_id.clone(),
                                    wrapped_key: wrapped,
                                },
                            },
                        );
                    },
                    Result::Err(_) => {},
                }
            }
            r
        },
        ServerEvent::KeyResponseEvent { data } => {
            let _ = ks.unwrap_group_key(
                data.group_name.as_str(),
                data.wrapped_key.as_str(),
                data.sender_public_key.as_str(),
            );
            Vec::new()
        },
    }
}

/// The wire item is an envelope of some batch entry whose group key is
/// held.
pub open spec fn envelope_of_some(
    ks: KeyStore,
    entries: Seq<HistoryEntry>,
    env: crate::models::EncryptedHistoryEntry,
) -> bool {
    exists|j: int|
        0 <= j < entries.len() && ks.spec_has_group_key(#[trigger] entries[j].group_name@)
            && crate::crypto::is_history_envelope(
            ks.spec_group_key(entries[j].group_name@),
            entries[j],
            env,
        )
}

/// The wire item copies some batch entry by content.
pub open spec fn copy_of_some(entries: Seq<HistoryEntry>, e: HistoryEntry) -> bool {
    exists|j: int| 0 <= j < entries.len() && history_like(e, #[trigger] entries[j])
}

/// The batch entry went out: as an envelope of itself, or as a plain copy.
pub open spec fn entry_sent(
    ks: KeyStore,
    entries: Seq<HistoryEntry>,
    enc: Seq<crate::models::EncryptedHistoryEntry>,
    plain: Seq<HistoryEntry>,
    j: int,
) -> bool {
    ||| (exists|k: int|
        0 <= k < enc.len() && crate::crypto::is_history_envelope(
            ks.spec_group_key(entries[j].group_name@),
            entries[j],
            #[trigger] enc[k],
        ))
    ||| (exists|k: int| 0 <= k < plain.len() && history_like(#[trigger] plain[k], entries[j]))
}

/// A correct split of one outbox batch: counts add up, every encrypted
/// item is an envelope of some entry whose group key is held, every
/// plaintext item copies some entry, and every entry went out one way or
/// the other.
pub open spec fn push_plan_ok(
    ks: KeyStore,
    entries: Seq<HistoryEntry>,
    enc: Seq<crate::models::EncryptedHistoryEntry>,
    plain: Seq<HistoryEntry>,
) -> bool {
    &&& enc.len() + plain.len() == entries.len()
    &&& (forall|k: int| 0 <= k < enc.len() ==> envelope_of_some(ks, entries, #[trigger] enc[k]))
    &&& (forall|k: int| 0 <= k < plain.len() ==> copy_of_some(entries, #[trigger] plain[k]))
    &&& (forall|j: int| 0 <= j < entries.len() ==> entry_sent(ks, entries, enc, plain, j))
}

/// Splits one outbox batch for the wire: an entry whose group's key is
/// held and whose fields the cipher accepts goes out encrypted as an
/// envelope of itself; any other entry goes out plaintext, as the original
/// daemon fell back to. Every entry goes out exactly once.
pub fn plan_history_push(ks: &KeyStore, entries: &Vec<HistoryEntry>) -> (r: (
    Vec<crate::models::EncryptedHistoryEntry>,
    Vec<HistoryEntry>,
))
    requires
        ks.wf(),
    ensures
        push_plan_ok(*ks, entries@, r.0@, r.1@),
{
    let mut encrypted: Vec<crate::models::EncryptedHistoryEntry> = Vec::new();
    let mut plaintext: Vec<HistoryEntry> = Vec::new();
    let mut i: usize = 0;
    while i < entries.len()
        invariant
            ks.wf(),
            i <= entries@.len(),
            encrypted@.len() + plaintext@.len() == i,
            forall|k: int|
                0 <= k < encrypted@.len() ==> envelope_of_some(
                    *ks,
                    entries@,
                    #[trigger] encrypted@[k],
                ),
            forall|k: int|
                0 <= k < plaintext@.len() ==> copy_of_some(entries@, #[trigger] plaintext@[k]),
            forall|j: int|
                0 <= j < i ==> entry_sent(*ks, entries@, encrypted@, plaintext@, j),
        decreases entries@.len() - i,
    {
        let ghost enc_prev = encrypted@;
        let ghost plain_prev = plaintext@;
        let e = &entries[i];
        let mut sent_encrypted = false;
        match ks.get_group_key(e.group_name.as_str()) {
            Option::Some(key) => {
                match crate::crypto::encrypt_history_entry(key.as_slice(), e) {
                    Result::Ok(env) => {
                        encrypted.push(env);
                        sent_encrypted = true;
                    },
                    Result::Err(_) => {},
                }
            },
            Option::None => {},
        }
        if !sent_encrypted {
            plaintext.push(clone_history_entry(e));
        }
        proof {
            assert(forall|k: int| 0 <= k < enc_prev.len() ==> encrypted@[k] == enc_prev[k]);
            assert(forall|k: int| 0 <= k < plain_prev.len() ==> plaintext@[k] == plain_prev[k]);
            if sent_encrypted {
                assert(ks.spec_has_group_key(entries@[i as int].group_name@));
                assert(crate::crypto::is_history_envelope(
                    ks.spec_group_key(entries@[i as int].group_name@),
                    entries@[i as int],
                    encrypted@[encrypted@.len() - 1],
                ));
                assert(envelope_of_some(*ks, entries@, encrypted@[encrypted@.len() - 1]));
                assert(entry_sent(*ks, entries@, encrypted@, plaintext@, i as int));
            } else {
                assert(history_like(plaintext@[plaintext@.len() - 1], entries@[i as int]));
                assert(copy_of_some(entries@, plaintext@[plaintext@.len() - 1]));
                assert(entry_sent(*ks, entries@, encrypted@, plaintext@, i as int));
            }
            assert forall|j: int| 0 <= j < i + 1 implies entry_sent(
                *ks,
                entries@,
                encrypted@,
                plaintext@,
                j,
            ) by {
                if j < i {
                    assert(entry_sent(*ks, entries@, enc_prev, plain_prev, j));
                    if exists|k: int|
                        0 <= k < enc_prev.len() && crate::crypto::is_history_envelope(
                            ks.spec_group_key(entries@[j].group_name@),
                            entries@[j],
                            #[trigger] enc_prev[k],
                        ) {
                        let w = choose|k: int|
                            0 <= k < enc_prev.len() && crate::crypto::is_history_envelope(
                                ks.spec_group_key(entries@[j].group_name@),
                                entries@[j],
                                #[trigger] enc_prev[k],
                            );
                        assert(crate::crypto::is_history_envelope(
                            ks.spec_group_key(entries@[j].group_name@),
                            entries@[j],
                            encrypted@[w],
                        ));
                    } else {
                        assert(exists|k: int|
                            0 <= k < plain_prev.len() && history_like(
                                #[trigger] plain_prev[k],
                                entries@[j],
                            ));
                        let w = choose|k: int|
                            0 <= k < plain_prev.len() && history_like(
                                #[trigger] plain_prev[k],
                                entries@[j],
                            );
                        assert(history_like(plaintext@[w], entries@[j]));
                    }
                }
            }
        }
        i += 1;
    }
    (encrypted, plaintext)
}

/// The alias lines of the shell file, one per alias, in list order.
pub open spec fn spec_alias_lines(t: ShellType, aliases: Seq<Alias>) -> Seq<char>
    decreases aliases.len(),
{
    if aliases.len() == 0 {
        Seq::empty()
    } else {
        spec_alias_lines(t, aliases.drop_last()) + spec_format_alias(
            t,
            aliases.last().name@,
            aliases.last().command@,
        ) + "\n"@
    }
}

/// Renders the body of the shell alias file: one line per fetched alias.
/// The content is a function of the fetched list alone, so reconciling
/// twice after the same event writes the same file, and an alias can
/// appear only as often as it stands in the list.
pub fn generate_alias_content(shell: ShellType, aliases: &Vec<Alias>) -> (r: String)
    ensures
        r@ == spec_alias_lines(shell, aliases@),
{
    let mut out = String::new();
    let mut i: usize = 0;
    while i < aliases.len()
        invariant
            i <= aliases@.len(),
            out@ =~= spec_alias_lines(shell, aliases@.subrange(0, i as int)),
        decreases aliases@.len() - i,
    {
        let line = shell.format_alias(aliases[i].name.as_str(), aliases[i].command.as_str());
        out.append(line.as_str());
        out.append("\n");
        proof {
            let p1 = aliases@.subrange(0, i + 1 as int);
            assert(p1.drop_last() =~= aliases@.subrange(0, i as int));
            assert(p1.last() == aliases@[i as int]);
            assert(out@ =~= spec_alias_lines(shell, p1));
        }
        i += 1;
    }
    proof {
        assert(aliases@.subrange(0, aliases@.len() as int) =~= aliases@);
    }
    out
}

/// Reconciling is idempotent: two fetches that return the same aliases, by
/// content, render the same shell file, however many events led to them.
pub proof fn lemma_reconcile_idempotent(t: ShellType, a: Seq<Alias>, b: Seq<Alias>)
    requires
        a.len() == b.len(),
        forall|i: int| 0 <= i < a.len() ==> crate::models::alias_like(#[trigger] a[i], b[i]),
    ensures
        spec_alias_lines(t, a) == spec_alias_lines(t, b),
    decreases a.len(),
{
    if a.len() > 0 {
        lemma_reconcile_idempotent(t, a.drop_last(), b.drop_last());
        assert(crate::models::alias_like(a.last(), b.last()));
        assert(spec_format_alias(t, a.last().name@, a.last().command@) == spec_format_alias(
            t,
            b.last().name@,
            b.last().command@,
        ));
    }
}

} // verus!
