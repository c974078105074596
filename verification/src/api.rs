use vstd::prelude::*;

use crate::models::{
    alias_like, clone_strings, opt_str_like, strings_like, Alias, Machine, RegisterRequest,
    RegisterResponse,
};
use crate::naming::valid_alias_name;
use crate::secrets::{check_for_secrets, spec_combined, spec_secret_hit};
use crate::store::{
    alias_key_taken, machine_id_taken, token_taken, StoreError, SyncStore,
};
use crate::strutil::spec_contains_str;

verus! {

/// A refused request: the HTTP status to answer with, and a human message.
#[derive(Debug)]
pub struct ApiError {
    pub status: u16,
    pub message: String,
}

fn api_err(status: u16, message: &str) -> (r: ApiError)
    ensures
        r.status == status,
        r.message@ == message@,
{
    ApiError { status, message: String::from_str(message) }
}

/// The index of the machine that holds this token.
pub open spec fn token_index(ms: Seq<Machine>, token: Seq<char>) -> int {
    choose|i: int| 0 <= i < ms.len() && ms[i].auth_token@ == token
}

/// The machines after one request: only the caller's last-seen stamp moved,
/// and it never moved backwards.
pub open spec fn last_seen_bumped(
    pre: Seq<Machine>,
    post: Seq<Machine>,
    mid: Seq<char>,
    now_ms: i64,
) -> bool {
    &&& post.len() == pre.len()
    &&& forall|j: int|
        0 <= j < pre.len() && pre[j].machine_id@ != mid ==> post[j] == #[trigger] pre[j]
    &&& forall|j: int|
        0 <= j < pre.len() && #[trigger] pre[j].machine_id@ == mid ==> {
            &&& post[j] == (Machine { last_seen: post[j].last_seen, ..pre[j] })
            &&& post[j].last_seen == if now_ms > pre[j].last_seen {
                now_ms
            } else {
                pre[j].last_seen
            }
        }
}

/// The validation verdict for an alias write: 0 for acceptance, else the
/// HTTP status of the refusal, in the order the service checks them.
pub open spec fn add_alias_check(
    aliases: Seq<Alias>,
    machine_groups: Seq<String>,
    name: Seq<char>,
    command: Seq<char>,
    group: Seq<char>,
) -> int {
    if name.len() == 0 || command.len() == 0 {
        400
    } else if !valid_alias_name(name) {
        400
    } else if spec_secret_hit(spec_combined(name, command)) {
        400
    } else if !spec_contains_str(machine_groups, group) {
        403
    } else if alias_key_taken(aliases, name, group) {
        409
    } else {
        0
    }
}

/// Registers a machine: refuses an empty hostname or an empty group list,
/// otherwise upserts by machine id, keeping any previously issued token.
/// The caller supplies the freshly minted machine id and bearer token.
pub fn register(
    store: &mut SyncStore,
    req: &RegisterRequest,
    machine_id: &str,
    auth_token: &str,
    os_fallback: &str,
    now_ms: i64,
) -> (r: Result<RegisterResponse, ApiError>)
    requires
        old(store).wf(),
    ensures
        final(store).wf(),
        (req.hostname@.len() == 0 || req.groups@.len() == 0) ==> (r matches Err(e) && e.status
            == 400) && *final(store) == *old(store),
        req.hostname@.len() > 0 && req.groups@.len() > 0 && !machine_id_taken(
            old(store).machines@,
            machine_id@,
        ) && !token_taken(old(store).machines@, auth_token@) && old(store).next_machine_id
            < i64::MAX ==> {
            &&& (r matches Ok(resp) && resp.machine_id@ == machine_id@ && resp.auth_token@
                == auth_token@)
            &&& final(store).machines@.len() == old(store).machines@.len() + 1
            &&& final(store).machines@.last().machine_id@ == machine_id@
            &&& final(store).machines@.last().auth_token@ == auth_token@
            &&& final(store).machines@.last().hostname@ == req.hostname@
            &&& strings_like(final(store).machines@.last().groups@, req.groups@)
        },
        req.hostname@.len() > 0 && req.groups@.len() > 0 && !machine_id_taken(
            old(store).machines@,
            machine_id@,
        ) && token_taken(old(store).machines@, auth_token@) ==> (r matches Err(e) && e.status
            == 500) && *final(store) == *old(store),
        req.hostname@.len() > 0 && req.groups@.len() > 0 && machine_id_taken(
            old(store).machines@,
            machine_id@,
        ) ==> {
            &&& (r matches Ok(resp) && resp.machine_id@ == machine_id@ && resp.auth_token@
                == auth_token@)
            &&& final(store).machines@.len() == old(store).machines@.len()
            &&& (exists|i: int|
                #![trigger old(store).machines@[i]]
                {
                    &&& 0 <= i < old(store).machines@.len()
                    &&& old(store).machines@[i].machine_id@ == machine_id@
                    &&& final(store).machines@[i].hostname@ == req.hostname@
                    &&& strings_like(final(store).machines@[i].groups@, req.groups@)
                    &&& final(store).machines@[i].auth_token == old(store).machines@[i].auth_token
                })
        },
    {
    if req.hostname.as_str().is_empty() || req.groups.len() == 0 {
        return Result::Err(api_err(400, "Missing required fields: hostname, groups (array)"));
    }
    let os_type: &str = match &req.os_type {
        Option::Some(o) => o.as_str(),
        Option::None => os_fallback,
    };
    let outcome = store.register_machine(
        machine_id,
        req.hostname.as_str(),
        &req.groups,
        os_type,
        auth_token,
        match &req.public_key {
            Option::Some(pk) => Option::Some(pk),
            Option::None => Option::None,
        },
        now_ms,
    );
    match outcome {
        Result::Ok(()) => Result::Ok(
            RegisterResponse {
                machine_id: String::from_str(machine_id),
                auth_token: String::from_str(auth_token),
                message: String::from_str("Machine registered successfully"),
            },
        ),
        Result::Err(_) => Result::Err(api_err(500, "Could not register machine")),
    }
}

/// Resolves the bearer token to a machine and bumps its last-seen stamp.
/// Returns the machine id and its groups, or a 401 refusal.
pub fn authenticate(store: &mut SyncStore, token: &str, now_ms: i64) -> (r: Result<
    (String, Vec<String>),
    ApiError,
>)
    requires
        old(store).wf(),
    ensures
        final(store).wf(),
        !token_taken(old(store).machines@, token@) ==> (r matches Err(e) && e.status == 401)
            && *final(store) == *old(store),
        token_taken(old(store).machines@, token@) ==> {
            let m = old(store).machines@[token_index(old(store).machines@, token@)];
            &&& (r matches Ok(p) && p.0@ == m.machine_id@ && strings_like(p.1@, m.groups@))
            &&& last_seen_bumped(old(store).machines@, final(store).machines@, m.machine_id@, now_ms)
            &&& *final(store) == (SyncStore { machines: final(store).machines, ..*old(store) })
        },
{
    let (mid, groups) = match store.get_machine_by_token(token) {
        Option::Some(m) => (m.machine_id.clone(), clone_strings(&m.groups)),
        Option::None => {
            return Result::Err(api_err(401, "Invalid authentication token"));
        },
    };
    proof {
        let i = token_index(old(store).machines@, token@);
        assert(0 <= i < old(store).machines@.len() && old(store).machines@[i].auth_token@
            == token@);
        assert(old(store).machines@[i].machine_id@ == mid@);
    }
    store.update_machine_last_seen(mid.as_str(), now_ms);
    Result::Ok((mid, groups))
}

/// Creates an alias for an authenticated machine: refuses a missing or
/// ill-formed name, a potential secret, a group the machine is not in, and
/// a duplicate natural key, with the service's status codes.
pub fn add_alias(store: &mut SyncStore, token: &str, name: &str, command: &str, group: &str, now_ms: i64) -> (r: Result<Alias, ApiError>)
    requires
        old(store).wf(),
    ensures
        final(store).wf(),
        !token_taken(old(store).machines@, token@) ==> (r matches Err(e) && e.status == 401)
            && *final(store) == *old(store),
        token_taken(old(store).machines@, token@) ==> {
            let m = old(store).machines@[token_index(old(store).machines@, token@)];
            let verdict = add_alias_check(old(store).aliases@, m.groups@, name@, command@, group@);
            &&& last_seen_bumped(old(store).machines@, final(store).machines@, m.machine_id@, now_ms)
            &&& (verdict != 0 ==> (r matches Err(e) && e.status as int == verdict) && *final(store)
                == (SyncStore { machines: final(store).machines, ..*old(store) }))
            &&& (verdict == 0 && old(store).next_alias_id < i64::MAX && old(store).next_audit_id
                < i64::MAX ==> {
                &&& (r matches Ok(a) && crate::store::new_alias_is(
                    a,
                    old(store).next_alias_id,
                    name@,
                    command@,
                    group@,
                    m.machine_id@,
                    now_ms,
                ))
                &&& final(store).aliases@.len() == old(store).aliases@.len() + 1
                &&& final(store).aliases@ == old(store).aliases@.push(final(store).aliases@.last())
                &&& (r matches Ok(a) && alias_like(a, final(store).aliases@.last()))
                &&& final(store).audit@ == old(store).audit@.push(final(store).audit@.last())
                &&& crate::store::audit_entry_is(
                    final(store).audit@.last(),
                    old(store).next_audit_id,
                    now_ms,
                    m.machine_id@,
                    "add"@,
                    name@,
                    Option::Some(command@),
                    Option::Some(group@),
                )
            })
            &&& (verdict == 0 && (old(store).next_alias_id == i64::MAX || old(store).next_audit_id
                == i64::MAX) ==> (r matches Err(e) && e.status == 500))
        },
{
    let (mid, groups) = match authenticate(store, token, now_ms) {
        Result::Ok(p) => p,
        Result::Err(e) => {
            return Result::Err(e);
        },
    };
    if name.is_empty() || command.is_empty() {
        return Result::Err(api_err(400, "Missing required fields: name, command"));
    }
    if !crate::naming::is_valid_alias_name(name) {
        return Result::Err(
            api_err(400, "Invalid alias name. Use only letters, numbers, underscore, dot, and dash."),
        );
    }
    if check_for_secrets(name, command) {
        return Result::Err(
            api_err(400, "Potential secret detected in alias. Secrets should not be synced."),
        );
    }
    if !crate::strutil::contains_string(&groups, group) {
        return Result::Err(api_err(403, "Machine does not belong to this group"));
    }
    match store.add_alias(name, command, group, mid.as_str(), now_ms) {
        Result::Ok(a) => Result::Ok(a),
        Result::Err(StoreError::DuplicateAlias) => Result::Err(
            api_err(409, "Alias already exists in this group"),
        ),
        Result::Err(_) => Result::Err(api_err(500, "Could not store alias")),
    }
}


/// A masked machine as the machines listing returns it: every field agrees
/// by content, but the bearer token reads `***`.
pub open spec fn machine_masked(a: Machine, b: Machine) -> bool {
    &&& a.id == b.id
    &&& a.machine_id@ == b.machine_id@
    &&& a.hostname@ == b.hostname@
    &&& strings_like(a.groups@, b.groups@)
    &&& opt_str_like(a.os_type, b.os_type)
    &&& a.auth_token@ == "***"@
    &&& a.last_seen == b.last_seen
    &&& a.created_at == b.created_at
}

/// The index of the alias with this id.
pub open spec fn alias_index(aliases: Seq<Alias>, id: i64) -> int {
    choose|i: int| 0 <= i < aliases.len() && aliases[i].id == id
}

/// Lists the aliases of every group the caller belongs to, ordered by name.
pub fn get_aliases(store: &mut SyncStore, token: &str, now_ms: i64) -> (r: Result<
    (Vec<Alias>, Vec<String>),
    ApiError,
>)
    requires
        old(store).wf(),
    ensures
        final(store).wf(),
        !token_taken(old(store).machines@, token@) ==> (r matches Err(e) && e.status == 401)
            && *final(store) == *old(store),
        token_taken(old(store).machines@, token@) ==> {
            let m = old(store).machines@[token_index(old(store).machines@, token@)];
            &&& last_seen_bumped(old(store).machines@, final(store).machines@, m.machine_id@, now_ms)
            &&& *final(store) == (SyncStore { machines: final(store).machines, ..*old(store) })
            &&& (r matches Ok(p) && {
                let (aliases, groups) = p;
                &&& strings_like(groups@, m.groups@)
                &&& aliases@.len() == crate::store::count_in_groups(old(store).aliases@, groups@)
                &&& (forall|i: int, j: int|
                    0 <= i < j < aliases@.len() ==> crate::sortutil::alias_le(
                        false,
                        #[trigger] aliases@[i],
                        #[trigger] aliases@[j],
                    ))
                &&& (forall|k: int|
                    0 <= k < aliases@.len() ==> crate::store::alias_group_source(
                        old(store).aliases@,
                        groups@,
                        #[trigger] aliases@[k],
                    ))
                &&& (forall|i: int|
                    0 <= i < old(store).aliases@.len() && spec_contains_str(
                        groups@,
                        #[trigger] old(store).aliases@[i].group_name@,
                    ) ==> crate::store::alias_covered(aliases@, old(store).aliases@[i]))
            })
        },
{
    let (_mid, groups) = match authenticate(store, token, now_ms) {
        Result::Ok(p) => p,
        Result::Err(e) => {
            return Result::Err(e);
        },
    };
    let aliases = store.get_aliases_by_groups(&groups);
    Result::Ok((aliases, groups))
}

/// The validation verdict for an alias update, in the service's order.
pub open spec fn update_alias_check(aliases: Seq<Alias>, id: i64, command: Seq<char>) -> int {
    if command.len() == 0 {
        400
    } else if !crate::store::alias_id_taken(aliases, id) {
        404
    } else if spec_secret_hit(spec_combined(aliases[alias_index(aliases, id)].name@, command)) {
        400
    } else {
        0
    }
}

/// Replaces an alias command by id, bumping its version by one. Re-runs the
/// secret heuristic against the alias name and the new command.
pub fn update_alias(store: &mut SyncStore, token: &str, id: i64, command: &str, now_ms: i64) -> (r:
    Result<Alias, ApiError>)
    requires
        old(store).wf(),
    ensures
        final(store).wf(),
        !token_taken(old(store).machines@, token@) ==> (r matches Err(e) && e.status == 401)
            && *final(store) == *old(store),
        token_taken(old(store).machines@, token@) ==> {
            let m = old(store).machines@[token_index(old(store).machines@, token@)];
            let verdict = update_alias_check(old(store).aliases@, id, command@);
            &&& last_seen_bumped(old(store).machines@, final(store).machines@, m.machine_id@, now_ms)
            &&& (verdict != 0 ==> (r matches Err(e) && e.status as int == verdict) && *final(store)
                == (SyncStore { machines: final(store).machines, ..*old(store) }))
            &&& (verdict == 0 && (old(store).next_audit_id == i64::MAX || old(
                store,
            ).aliases@[alias_index(old(store).aliases@, id)].version == i64::MAX) ==> (r
                matches Err(e) && e.status == 500))
            &&& (verdict == 0 && old(store).next_audit_id < i64::MAX && old(
                store,
            ).aliases@[alias_index(old(store).aliases@, id)].version < i64::MAX ==> {
                let at = alias_index(old(store).aliases@, id);
                &&& final(store).aliases@.len() == old(store).aliases@.len()
                &&& (forall|j: int|
                    0 <= j < old(store).aliases@.len() && old(store).aliases@[j].id != id
                        ==> final(store).aliases@[j] == old(store).aliases@[j])
                &&& final(store).aliases@[at].command@ == command@
                &&& final(store).aliases@[at].version as int == old(
                    store,
                ).aliases@[at].version as int + 1
                &&& final(store).aliases@[at].updated_at == now_ms
                &&& final(store).aliases@[at].name@ == old(store).aliases@[at].name@
                &&& final(store).aliases@[at].group_name@ == old(store).aliases@[at].group_name@
                &&& (r matches Ok(a) && alias_like(a, final(store).aliases@[at]))
                &&& final(store).audit@ == old(store).audit@.push(final(store).audit@.last())
            })
        },
{
    let (mid, _groups) = match authenticate(store, token, now_ms) {
        Result::Ok(p) => p,
        Result::Err(e) => {
            return Result::Err(e);
        },
    };
    if command.is_empty() {
        return Result::Err(api_err(400, "Missing required field: command"));
    }
    let name = match store.get_alias_by_id(id) {
        Option::Some(a) => a.name.clone(),
        Option::None => {
            return Result::Err(api_err(404, "Alias not found"));
        },
    };
    proof {
        let at = alias_index(old(store).aliases@, id);
        assert(0 <= at < old(store).aliases@.len() && old(store).aliases@[at].id == id);
        assert(name@ == old(store).aliases@[at].name@);
    }
    if check_for_secrets(name.as_str(), command) {
        return Result::Err(
            api_err(400, "Potential secret detected in alias. Secrets should not be synced."),
        );
    }
    match store.update_alias(id, command, mid.as_str(), now_ms) {
        Result::Ok(Option::Some(a)) => Result::Ok(a),
        Result::Ok(Option::None) => Result::Err(api_err(404, "Alias not found")),
        Result::Err(_) => Result::Err(api_err(500, "Could not update alias")),
    }
}

/// Deletes an alias by id, returning the removed alias's name and group so
/// the caller can announce the deletion.
pub fn delete_alias(store: &mut SyncStore, token: &str, id: i64, now_ms: i64) -> (r: Result<
    (String, String),
    ApiError,
>)
    requires
        old(store).wf(),
    ensures
        final(store).wf(),
        !token_taken(old(store).machines@, token@) ==> (r matches Err(e) && e.status == 401)
            && *final(store) == *old(store),
        token_taken(old(store).machines@, token@) ==> {
            let m = old(store).machines@[token_index(old(store).machines@, token@)];
            &&& last_seen_bumped(old(store).machines@, final(store).machines@, m.machine_id@, now_ms)
            &&& (!crate::store::alias_id_taken(old(store).aliases@, id) ==> (r matches Err(e)
                && e.status == 404) && *final(store) == (SyncStore {
                machines: final(store).machines,
                ..*old(store)
            }))
            &&& (crate::store::alias_id_taken(old(store).aliases@, id) && old(store).next_audit_id
                < i64::MAX ==> {
                let at = alias_index(old(store).aliases@, id);
                &&& (r matches Ok(p) && p.0@ == old(store).aliases@[at].name@ && p.1@ == old(
                    store,
                ).aliases@[at].group_name@)
                &&& final(store).aliases@ == old(store).aliases@.remove(at)
                &&& final(store).audit@ == old(store).audit@.push(final(store).audit@.last())
            })
        },
{
    let (mid, _groups) = match authenticate(store, token, now_ms) {
        Result::Ok(p) => p,
        Result::Err(e) => {
            return Result::Err(e);
        },
    };
    let (name, group) = match store.get_alias_by_id(id) {
        Option::Some(a) => (a.name.clone(), a.group_name.clone()),
        Option::None => {
            return Result::Err(api_err(404, "Alias not found"));
        },
    };
    proof {
        let at = alias_index(old(store).aliases@, id);
        assert(0 <= at < old(store).aliases@.len() && old(store).aliases@[at].id == id);
    }
    match store.delete_alias(id, mid.as_str(), now_ms) {
        Result::Ok(true) => {
            proof {
                let at = alias_index(old(store).aliases@, id);
                let w = choose|w: int|
                    #![trigger old(store).aliases@[w]]
                    {
                        &&& 0 <= w < old(store).aliases@.len()
                        &&& old(store).aliases@[w].id == id
                        &&& final(store).aliases@ == old(store).aliases@.remove(w)
                        &&& crate::store::audit_entry_is(
                            final(store).audit@.last(),
                            old(store).next_audit_id,
                            now_ms,
                            mid@,
                            "delete"@,
                            old(store).aliases@[w].name@,
                            Option::Some(old(store).aliases@[w].command@),
                            Option::Some(old(store).aliases@[w].group_name@),
                        )
                    };
                assert(w == at);
            }
            Result::Ok((name, group))
        },
        Result::Ok(false) => Result::Err(api_err(404, "Alias not found")),
        Result::Err(_) => Result::Err(api_err(500, "Could not delete alias")),
    }
}

/// Query parameters of a delete by natural key.
#[derive(Debug, Clone)]
pub struct DeleteByNameQuery {
    pub group: Option<String>,
}

/// Query parameters of an audit-log read.
#[derive(Debug, Clone)]
pub struct HistoryQuery {
    pub limit: Option<i64>,
}

/// Query parameters of a shell-history page read.
#[derive(Debug, Clone)]
pub struct ShellHistoryQuery {
    pub after_timestamp: Option<i64>,
    pub group: Option<String>,
    pub limit: Option<i64>,
}

/// Deletes an alias by its (name, group) natural key; the group falls back
/// to `default` when the query names none.
pub fn delete_alias_by_name(
    store: &mut SyncStore,
    token: &str,
    name: &str,
    group: Option<&String>,
    now_ms: i64,
) -> (r: Result<(String, String), ApiError>)
    requires
        old(store).wf(),
    ensures
        final(store).wf(),
        !token_taken(old(store).machines@, token@) ==> (r matches Err(e) && e.status == 401)
            && *final(store) == *old(store),
        token_taken(old(store).machines@, token@) ==> {
            let m = old(store).machines@[token_index(old(store).machines@, token@)];
            let g = match group {
                Option::Some(gs) => gs@,
                Option::None => "default"@,
            };
            &&& last_seen_bumped(old(store).machines@, final(store).machines@, m.machine_id@, now_ms)
            &&& (!alias_key_taken(old(store).aliases@, name@, g) ==> (r matches Err(e) && e.status
                == 404) && *final(store) == (SyncStore {
                machines: final(store).machines,
                ..*old(store)
            }))
            &&& (alias_key_taken(old(store).aliases@, name@, g) && old(store).next_audit_id
                < i64::MAX ==> {
                &&& (r matches Ok(p) && p.0@ == name@ && p.1@ == g)
                &&& final(store).aliases@.len() == old(store).aliases@.len() - 1
                &&& !alias_key_taken(final(store).aliases@, name@, g)
                &&& final(store).audit@ == old(store).audit@.push(final(store).audit@.last())
            })
        },
{
    let (mid, _groups) = match authenticate(store, token, now_ms) {
        Result::Ok(p) => p,
        Result::Err(e) => {
            return Result::Err(e);
        },
    };
    let group_s: String = match group {
        Option::Some(g) => g.clone(),
        Option::None => crate::models::default_group(),
    };
    match store.delete_alias_by_name(name, group_s.as_str(), mid.as_str(), now_ms) {
        Result::Ok(true) => {
            proof {
                let w = choose|w: int|
                    #![trigger old(store).aliases@[w]]
                    {
                        &&& 0 <= w < old(store).aliases@.len()
                        &&& old(store).aliases@[w].name@ == name@
                        &&& old(store).aliases@[w].group_name@ == group_s@
                        &&& final(store).aliases@ == old(store).aliases@.remove(w)
                    };
                assert(final(store).aliases@.len() == old(store).aliases@.len() - 1);
                let fa = final(store).aliases@;
                assert forall|i: int|
                    0 <= i < fa.len() implies !(#[trigger] fa[i].name@ == name@
                    && fa[i].group_name@ == group_s@) by {
                    if i < w {
                        assert(fa[i] == old(store).aliases@[i]);
                    } else {
                        assert(fa[i] == old(store).aliases@[i + 1]);
                    }
                }
            }
            Result::Ok((String::from_str(name), group_s))
        },
        Result::Ok(false) => Result::Err(api_err(404, "Alias not found")),
        Result::Err(_) => Result::Err(api_err(500, "Could not delete alias")),
    }
}

/// Lists the caller's unresolved conflicts, newest first.
pub fn get_conflicts(store: &mut SyncStore, token: &str, now_ms: i64) -> (r: Result<
    Vec<crate::models::Conflict>,
    ApiError,
>)
    requires
        old(store).wf(),
    ensures
        final(store).wf(),
        !token_taken(old(store).machines@, token@) ==> (r matches Err(e) && e.status == 401)
            && *final(store) == *old(store),
        token_taken(old(store).machines@, token@) ==> {
            let m = old(store).machines@[token_index(old(store).machines@, token@)];
            &&& last_seen_bumped(old(store).machines@, final(store).machines@, m.machine_id@, now_ms)
            &&& *final(store) == (SyncStore { machines: final(store).machines, ..*old(store) })
            &&& (r matches Ok(cs) && {
                &&& cs@.len() == crate::store::count_conflicts_of(
                    old(store).conflicts@,
                    m.machine_id@,
                )
                &&& (forall|k: int|
                    0 <= k < cs@.len() ==> crate::store::conflict_source(
                        old(store).conflicts@,
                        m.machine_id@,
                        #[trigger] cs@[k],
                    ))
            })
        },
{
    let (mid, _groups) = match authenticate(store, token, now_ms) {
        Result::Ok(p) => p,
        Result::Err(e) => {
            return Result::Err(e);
        },
    };
    let conflicts = store.get_conflicts_by_machine(mid.as_str());
    Result::Ok(conflicts)
}

/// Marks a conflict resolved; an unknown conflict id is a not-found refusal.
pub fn resolve_conflict(
    store: &mut SyncStore,
    token: &str,
    conflict_id: i64,
    resolution: &str,
    now_ms: i64,
) -> (r: Result<(), ApiError>)
    requires
        old(store).wf(),
    ensures
        final(store).wf(),
        !token_taken(old(store).machines@, token@) ==> (r matches Err(e) && e.status == 401)
            && *final(store) == *old(store),
        token_taken(old(store).machines@, token@) ==> {
            let m = old(store).machines@[token_index(old(store).machines@, token@)];
            &&& last_seen_bumped(old(store).machines@, final(store).machines@, m.machine_id@, now_ms)
            &&& (r is Ok <==> (exists|i: int|
                0 <= i < old(store).conflicts@.len() && #[trigger] old(store).conflicts@[i].id
                    == conflict_id))
            &&& (r matches Err(e) ==> e.status == 404)
            &&& (forall|j: int|
                0 <= j < old(store).conflicts@.len() && old(store).conflicts@[j].id == conflict_id
                    ==> final(store).conflicts@[j].resolved == true)
        },
{
    let (_mid, _groups) = match authenticate(store, token, now_ms) {
        Result::Ok(p) => p,
        Result::Err(e) => {
            return Result::Err(e);
        },
    };
    if store.resolve_conflict(conflict_id, resolution) {
        Result::Ok(())
    } else {
        Result::Err(api_err(404, "Conflict not found"))
    }
}

/// Copies out the newest audit-log entries, newest first, bounded by the
/// query's limit (100 when the query names none).
pub fn get_history(store: &mut SyncStore, token: &str, limit: Option<i64>, now_ms: i64) -> (r:
    Result<Vec<crate::models::SyncHistoryEntry>, ApiError>)
    requires
        old(store).wf(),
    ensures
        final(store).wf(),
        !token_taken(old(store).machines@, token@) ==> (r matches Err(e) && e.status == 401)
            && *final(store) == *old(store),
        token_taken(old(store).machines@, token@) ==> {
            let m = old(store).machines@[token_index(old(store).machines@, token@)];
            let lim = match limit {
                Option::Some(l) => l as int,
                Option::None => 100,
            };
            &&& last_seen_bumped(old(store).machines@, final(store).machines@, m.machine_id@, now_ms)
            &&& *final(store) == (SyncStore { machines: final(store).machines, ..*old(store) })
            &&& (r matches Ok(h) && {
                &&& h@.len() == crate::store::win_end(old(store).audit@.len() as int, 0, lim)
                &&& (forall|i: int, j: int|
                    0 <= i < j < h@.len() ==> #[trigger] h@[i].timestamp
                        >= #[trigger] h@[j].timestamp)
                &&& (forall|k: int|
                    0 <= k < h@.len() ==> crate::store::audit_source(
                        old(store).audit@,
                        #[trigger] h@[k],
                    ))
            })
        },
{
    let (_mid, _groups) = match authenticate(store, token, now_ms) {
        Result::Ok(p) => p,
        Result::Err(e) => {
            return Result::Err(e);
        },
    };
    let lim: i64 = match limit {
        Option::Some(l) => l,
        Option::None => 100,
    };
    Result::Ok(store.get_history(lim))
}

/// Lists every machine with its bearer token replaced by a fixed mask.
pub fn get_machines(store: &mut SyncStore, token: &str, now_ms: i64) -> (r: Result<
    Vec<Machine>,
    ApiError,
>)
    requires
        old(store).wf(),
    ensures
        final(store).wf(),
        !token_taken(old(store).machines@, token@) ==> (r matches Err(e) && e.status == 401)
            && *final(store) == *old(store),
        token_taken(old(store).machines@, token@) ==> {
            let m = old(store).machines@[token_index(old(store).machines@, token@)];
            &&& last_seen_bumped(old(store).machines@, final(store).machines@, m.machine_id@, now_ms)
            &&& *final(store) == (SyncStore { machines: final(store).machines, ..*old(store) })
            &&& (r matches Ok(ms) && ms@.len() == final(store).machines@.len() && (forall|k: int|
                0 <= k < ms@.len() ==> machine_masked(#[trigger] ms@[k], final(store).machines@[k])))
        },
{
    let (_mid, _groups) = match authenticate(store, token, now_ms) {
        Result::Ok(p) => p,
        Result::Err(e) => {
            return Result::Err(e);
        },
    };
    let mut out: Vec<Machine> = Vec::new();
    let mut i: usize = 0;
    while i < store.machines.len()
        invariant
            i <= store.machines@.len(),
            out@.len() == i,
            forall|k: int| 0 <= k < i ==> machine_masked(#[trigger] out@[k], store.machines@[k]),
        decreases store.machines@.len() - i,
    {
        let m = &store.machines[i];
        out.push(
            Machine {
                id: m.id,
                machine_id: m.machine_id.clone(),
                hostname: m.hostname.clone(),
                groups: clone_strings(&m.groups),
                os_type: crate::models::clone_opt_string(&m.os_type),
                auth_token: String::from_str("***"),
                last_seen: m.last_seen,
                created_at: m.created_at,
                public_key: Option::None,
            },
        );
        i += 1;
    }
    Result::Ok(out)
}

/// Pages the shell history of one of the caller's groups after a cursor
/// timestamp, oldest first. The limit defaults to 100 and is capped at the
/// service bound of 1000; the group defaults to `default`; membership is
/// enforced with a forbidden refusal.
pub fn get_shell_history(
    store: &mut SyncStore,
    token: &str,
    after_timestamp: Option<i64>,
    group: Option<&String>,
    limit: Option<i64>,
    now_ms: i64,
) -> (r: Result<(Vec<crate::models::HistoryEntry>, bool), ApiError>)
    requires
        old(store).wf(),
    ensures
        final(store).wf(),
        !token_taken(old(store).machines@, token@) ==> (r matches Err(e) && e.status == 401)
            && *final(store) == *old(store),
        token_taken(old(store).machines@, token@) ==> {
            let m = old(store).machines@[token_index(old(store).machines@, token@)];
            let g = match group {
                Option::Some(gs) => gs@,
                Option::None => "default"@,
            };
            let after = match after_timestamp {
                Option::Some(a) => a as int,
                Option::None => 0,
            };
            let lim = match limit {
                Option::Some(l) => if l as int > 1000 {
                    1000
                } else {
                    l as int
                },
                Option::None => 100,
            };
            &&& last_seen_bumped(old(store).machines@, final(store).machines@, m.machine_id@, now_ms)
            &&& *final(store) == (SyncStore { machines: final(store).machines, ..*old(store) })
            &&& (!spec_contains_str(m.groups@, g) ==> (r matches Err(e) && e.status == 403))
            &&& (spec_contains_str(m.groups@, g) ==> (r matches Ok(p) && {
                let (entries, has_more) = p;
                &&& entries@.len() == crate::store::win_end(
                    crate::store::count_after(old(store).history@, after as i64, g) as int,
                    0,
                    lim,
                )
                &&& has_more == (entries@.len() as int == lim)
                &&& (forall|i: int, j: int|
                    0 <= i < j < entries@.len() ==> #[trigger] entries@[i].timestamp
                        <= #[trigger] entries@[j].timestamp)
                &&& (forall|k: int|
                    0 <= k < entries@.len() ==> crate::store::after_source(
                        old(store).history@,
                        after as i64,
                        g,
                        #[trigger] entries@[k],
                    ))
            }))
        },
{
    let (_mid, groups) = match authenticate(store, token, now_ms) {
        Result::Ok(p) => p,
        Result::Err(e) => {
            return Result::Err(e);
        },
    };
    let group_s: String = match group {
        Option::Some(g) => g.clone(),
        Option::None => crate::models::default_group(),
    };
    let after: i64 = match after_timestamp {
        Option::Some(a) => a,
        Option::None => 0,
    };
    let lim: i64 = match limit {
        Option::Some(l) => if l > 1000 {
            1000
        } else {
            l
        },
        Option::None => 100,
    };
    if !crate::strutil::contains_string(&groups, group_s.as_str()) {
        return Result::Err(api_err(403, "Machine does not belong to this group"));
    }
    let entries = store.get_history_after_timestamp(after, group_s.as_str(), lim);
    let has_more = if lim >= 0 {
        (entries.len() as u64) == (lim as u64)
    } else {
        false
    };
    Result::Ok((entries, has_more))
}


/// One refused entry of a bulk import, with the refusal reason.
#[derive(Debug)]
pub struct ImportFailure {
    pub name: String,
    pub error: String,
}

/// What a bulk import did: the aliases added, and the entries refused.
#[derive(Debug)]
pub struct ImportOutcome {
    pub added: Vec<Alias>,
    pub failed: Vec<ImportFailure>,
}

/// An import entry that nothing intrinsic blocks: no secret-heuristic hit,
/// and a natural key that was free before the import began.
pub open spec fn import_entry_clean(
    aliases0: Seq<Alias>,
    entries: Seq<crate::models::ImportAlias>,
    group: Seq<char>,
    i: int,
) -> bool {
    &&& !spec_secret_hit(spec_combined(entries[i].name@, entries[i].command@))
    &&& !alias_key_taken(aliases0, entries[i].name@, group)
}

/// Whether a reported import failure corresponds to some refused entry:
/// it carries that entry's name and the refusal text of that entry.
pub open spec fn import_failure_listed(
    aliases0: Seq<Alias>,
    entries: Seq<crate::models::ImportAlias>,
    group: Seq<char>,
    f: ImportFailure,
) -> bool {
    exists|j: int|
        0 <= j < entries.len() && #[trigger] import_entry_fails(aliases0, entries, group, j)
            && f.name@ == entries[j].name@ && f.error@ == import_fail_reason(entries, j)
}

/// The refusal text an import entry receives: the secret heuristic is
/// checked first, and every other refusal is a duplicate name.
pub open spec fn import_fail_reason(
    entries: Seq<crate::models::ImportAlias>,
    i: int,
) -> Seq<char> {
    if spec_secret_hit(spec_combined(entries[i].name@, entries[i].command@)) {
        "Potential secret detected in alias. Secrets should not be synced."@
    } else {
        "Alias already exists in this group"@
    }
}

/// Whether the `i`-th import entry is refused, processing entries in order
/// against the aliases present before the import: an entry fails on the
/// secret heuristic, on a natural key already stored, or on the name of an
/// earlier entry that was added. Among entries sharing a name, the first
/// unblocked one is added, so an entry fails exactly when it is blocked
/// itself or an earlier unblocked entry carries its name.
pub open spec fn import_entry_fails(
    aliases0: Seq<Alias>,
    entries: Seq<crate::models::ImportAlias>,
    group: Seq<char>,
    i: int,
) -> bool {
    ||| !import_entry_clean(aliases0, entries, group, i)
    ||| (exists|j: int|
        0 <= j < i && #[trigger] import_entry_clean(aliases0, entries, group, j)
            && entries[j].name@ == entries[i].name@)
}

/// How many of the first `upto` import entries are refused.
pub open spec fn count_import_fails(
    aliases0: Seq<Alias>,
    entries: Seq<crate::models::ImportAlias>,
    group: Seq<char>,
    upto: int,
) -> nat
    decreases upto,
{
    if upto <= 0 {
        0
    } else {
        count_import_fails(aliases0, entries, group, upto - 1) + if import_entry_fails(
            aliases0,
            entries,
            group,
            upto - 1,
        ) {
            1nat
        } else {
            0nat
        }
    }
}

/// Bulk-adds aliases into one group. Each entry is accepted or refused on
/// its own: a secret-heuristic hit or a duplicate natural key refuses that
/// entry and only it. The caller must be a member of the group.
#[verifier::rlimit(100)]
#[verifier::spinoff_prover]
pub fn import_aliases(
    store: &mut SyncStore,
    token: &str,
    req: &crate::models::ImportRequest,
    now_ms: i64,
) -> (r: Result<ImportOutcome, ApiError>)
    requires
        old(store).wf(),
    ensures
        final(store).wf(),
        !token_taken(old(store).machines@, token@) ==> (r matches Err(e) && e.status == 401)
            && *final(store) == *old(store),
        token_taken(old(store).machines@, token@) ==> {
            let m = old(store).machines@[token_index(old(store).machines@, token@)];
            let g = req.group@;
            let headroom = old(store).next_alias_id + req.aliases@.len() <= i64::MAX && old(
                store,
            ).next_audit_id + req.aliases@.len() <= i64::MAX;
            &&& last_seen_bumped(old(store).machines@, final(store).machines@, m.machine_id@, now_ms)
            &&& (!spec_contains_str(m.groups@, g) ==> (r matches Err(e) && e.status == 403)
                && *final(store) == (SyncStore {
                machines: final(store).machines,
                ..*old(store)
            }))
            &&& (spec_contains_str(m.groups@, g) ==> (r matches Ok(out) && {
                &&& out.added@.len() + out.failed@.len() == req.aliases@.len()
                &&& final(store).aliases@.len() == old(store).aliases@.len() + out.added@.len()
                &&& (forall|k: int|
                    0 <= k < old(store).aliases@.len() ==> final(store).aliases@[k] == old(
                        store,
                    ).aliases@[k])
                &&& (headroom ==> out.failed@.len() == count_import_fails(
                    old(store).aliases@,
                    req.aliases@,
                    g,
                    req.aliases@.len() as int,
                ))
                &&& (headroom ==> (forall|k: int|
                    0 <= k < req.aliases@.len() && !import_entry_fails(
                        old(store).aliases@,
                        req.aliases@,
                        g,
                        k,
                    ) ==> alias_key_taken(
                        final(store).aliases@,
                        #[trigger] req.aliases@[k].name@,
                        g,
                    )))
                &&& (headroom ==> (forall|k: int|
                    0 <= k < out.failed@.len() ==> import_failure_listed(
                        old(store).aliases@,
                        req.aliases@,
                        g,
                        #[trigger] out.failed@[k],
                    )))
            }))
        },
{
    let (mid, groups) = match authenticate(store, token, now_ms) {
        Result::Ok(p) => p,
        Result::Err(e) => {
            return Result::Err(e);
        },
    };
    if !crate::strutil::contains_string(&groups, req.group.as_str()) {
        return Result::Err(api_err(403, "Machine does not belong to this group"));
    }
    let ghost aliases0 = store.aliases@;
    let ghost g = req.group@;
    let ghost entries = req.aliases@;
    let ghost base_alias_id = store.next_alias_id as int;
    let ghost base_audit_id = store.next_audit_id as int;
    let ghost headroom = base_alias_id + entries.len() <= i64::MAX && base_audit_id
        + entries.len() <= i64::MAX;
    let ghost machines1 = store.machines@;
    let mut added: Vec<Alias> = Vec::new();
    let mut failed: Vec<ImportFailure> = Vec::new();
    let mut i: usize = 0;
    while i < req.aliases.len()
        invariant
            store.wf(),
            aliases0 == old(store).aliases@,
            g == req.group@,
            entries == req.aliases@,
            machines1 == store.machines@,
            token_taken(old(store).machines@, token@),
            spec_contains_str(
                old(store).machines@[token_index(old(store).machines@, token@)].groups@,
                g,
            ),
            last_seen_bumped(
                old(store).machines@,
                machines1,
                old(store).machines@[token_index(old(store).machines@, token@)].machine_id@,
                now_ms,
            ),
            *store == (SyncStore {
                machines: store.machines,
                aliases: store.aliases,
                audit: store.audit,
                next_alias_id: store.next_alias_id,
                next_audit_id: store.next_audit_id,
                ..*old(store)
            }),
            i <= entries.len(),
            added@.len() + failed@.len() == i,
            store.aliases@.len() == aliases0.len() + added@.len(),
            forall|k: int| 0 <= k < aliases0.len() ==> store.aliases@[k] == aliases0[k],
            headroom == (base_alias_id + entries.len() <= i64::MAX && base_audit_id
                + entries.len() <= i64::MAX),
            base_alias_id == old(store).next_alias_id as int,
            base_audit_id == old(store).next_audit_id as int,
            store.next_alias_id as int <= base_alias_id + added@.len(),
            store.next_audit_id as int <= base_audit_id + added@.len(),
            headroom ==> failed@.len() == count_import_fails(aliases0, entries, g, i as int),
            headroom ==> (forall|n: Seq<char>|
                #[trigger] alias_key_taken(store.aliases@, n, g) <==> (alias_key_taken(
                    aliases0,
                    n,
                    g,
                ) || (exists|j: int|
                    0 <= j < i && import_entry_clean(aliases0, entries, g, j)
                        && #[trigger] entries[j].name@ == n))),
            headroom ==> (forall|k: int|
                0 <= k < failed@.len() ==> import_failure_listed(
                    aliases0,
                    entries,
                    g,
                    #[trigger] failed@[k],
                )),
        decreases entries.len() - i,
    {
        let ghost fails_i = import_entry_fails(aliases0, entries, g, i as int);
        let ghost failed_prev = failed@;
        let ghost aliases_prev = store.aliases@;
        let entry = &req.aliases[i];
        if check_for_secrets(entry.name.as_str(), entry.command.as_str()) {
            failed.push(
                ImportFailure {
                    name: entry.name.clone(),
                    error: String::from_str(
                        "Potential secret detected in alias. Secrets should not be synced.",
                    ),
                },
            );
            proof {
                assert(fails_i);
            }
        } else {
            match store.add_alias(
                entry.name.as_str(),
                entry.command.as_str(),
                req.group.as_str(),
                mid.as_str(),
                now_ms,
            ) {
                Result::Ok(a) => {
                    added.push(a);
                    proof {
                        if headroom {
                            assert(!alias_key_taken(aliases_prev, entries[i as int].name@, g));
                            assert(!alias_key_taken(aliases0, entries[i as int].name@, g));
                            assert(import_entry_clean(aliases0, entries, g, i as int));
                            assert(!fails_i);
                            assert(store.aliases@.last().name@ == entries[i as int].name@);
                            assert(store.aliases@.last().group_name@ == g);
                            assert forall|n: Seq<char>|
                                #[trigger] alias_key_taken(store.aliases@, n, g) <==> (
                            alias_key_taken(aliases0, n, g) || (exists|j: int|
                                0 <= j < i + 1 && import_entry_clean(aliases0, entries, g, j)
                                    && #[trigger] entries[j].name@ == n)) by {
                                if alias_key_taken(store.aliases@, n, g) {
                                    let w = choose|w: int|
                                        0 <= w < store.aliases@.len() && store.aliases@[w].name@
                                            == n && store.aliases@[w].group_name@ == g;
                                    if w < aliases_prev.len() {
                                        assert(store.aliases@[w] == aliases_prev[w]);
                                        assert(alias_key_taken(aliases_prev, n, g));
                                    } else {
                                        assert(store.aliases@[w] == store.aliases@.last());
                                        assert(entries[i as int].name@ == n);
                                        assert(import_entry_clean(aliases0, entries, g, i as int)
                                            && entries[i as int].name@ == n);
                                    }
                                }
                                if alias_key_taken(aliases0, n, g) || (exists|j: int|
                                    0 <= j < i + 1 && import_entry_clean(aliases0, entries, g, j)
                                        && entries[j].name@ == n) {
                                    if alias_key_taken(aliases_prev, n, g) {
                                        let w = choose|w: int|
                                            0 <= w < aliases_prev.len() && aliases_prev[w].name@
                                                == n && aliases_prev[w].group_name@ == g;
                                        assert(store.aliases@[w] == aliases_prev[w]);
                                        assert(alias_key_taken(store.aliases@, n, g));
                                    } else if exists|j: int|
                                        0 <= j < i + 1 && import_entry_clean(
                                            aliases0,
                                            entries,
                                            g,
                                            j,
                                        ) && entries[j].name@ == n {
                                        let j = choose|j: int|
                                            0 <= j < i + 1 && import_entry_clean(
                                                aliases0,
                                                entries,
                                                g,
                                                j,
                                            ) && entries[j].name@ == n;
                                        if j == i {
                                            assert(store.aliases@.last().name@ == n);
                                            assert(alias_key_taken(store.aliases@, n, g));
                                        } else {
                                            assert(alias_key_taken(aliases_prev, n, g));
                                            let w = choose|w: int|
                                                0 <= w < aliases_prev.len()
                                                    && aliases_prev[w].name@ == n
                                                    && aliases_prev[w].group_name@ == g;
                                            assert(store.aliases@[w] == aliases_prev[w]);
                                        }
                                    }
                                }
                            }
                        }
                    }
                },
                Result::Err(StoreError::DuplicateAlias) => {
                    failed.push(
                        ImportFailure {
                            name: entry.name.clone(),
                            error: String::from_str("Alias already exists in this group"),
                        },
                    );
                    proof {
                        if headroom {
                            assert(alias_key_taken(store.aliases@, entries[i as int].name@, g));
                            if alias_key_taken(aliases0, entries[i as int].name@, g) {
                                assert(!import_entry_clean(aliases0, entries, g, i as int));
                                assert(fails_i);
                            } else {
                                assert(exists|j: int|
                                    0 <= j < i && import_entry_clean(aliases0, entries, g, j)
                                        && #[trigger] entries[j].name@ == entries[
                                        i as int
                                    ].name@);
                                assert(fails_i);
                            }
                        }
                    }
                },
                Result::Err(_) => {
                    failed.push(
                        ImportFailure {
                            name: entry.name.clone(),
                            error: String::from_str("Could not store alias"),
                        },
                    );
                    proof {
                        if headroom {
                            assert(store.next_alias_id as int <= base_alias_id + added@.len());
                            assert(false);
                        }
                    }
                },
            }
        }
        proof {
            if headroom {
                assert(count_import_fails(aliases0, entries, g, i + 1) == count_import_fails(
                    aliases0,
                    entries,
                    g,
                    i as int,
                ) + if fails_i {
                    1int
                } else {
                    0int
                });
                assert forall|k: int| 0 <= k < failed@.len() implies import_failure_listed(
                    aliases0,
                    entries,
                    g,
                    #[trigger] failed@[k],
                ) by {
                    if k < failed_prev.len() {
                        assert(failed@[k] == failed_prev[k]);
                        assert(import_failure_listed(aliases0, entries, g, failed_prev[k]));
                    } else {
                        reveal_strlit(
                            "Potential secret detected in alias. Secrets should not be synced.",
                        );
                        reveal_strlit("Alias already exists in this group");
                        assert(failed@[k] == failed@.last());
                        assert(failed@[k].name@ == entries[i as int].name@);
                        assert(failed@[k].error@ =~= import_fail_reason(entries, i as int));
                        assert(import_entry_fails(aliases0, entries, g, i as int));
                    }
                }
            }
        }
        i += 1;
    }
    proof {
        if token_taken(old(store).machines@, token@) && headroom {
            assert forall|k: int|
                0 <= k < entries.len() && !import_entry_fails(aliases0, entries, g, k)
                    implies alias_key_taken(store.aliases@, #[trigger] entries[k].name@, g) by {
                assert(import_entry_clean(aliases0, entries, g, k));
                assert(exists|j: int|
                    0 <= j < i && import_entry_clean(aliases0, entries, g, j)
                        && #[trigger] entries[j].name@ == entries[k].name@);
            }
        }
        let mm = old(store).machines@[token_index(old(store).machines@, token@)];
        assert(last_seen_bumped(old(store).machines@, store.machines@, mm.machine_id@, now_ms));
        assert(spec_contains_str(mm.groups@, req.group@));
        assert(added@.len() + failed@.len() == entries.len());
        assert(store.aliases@.len() == aliases0.len() + added@.len());
        assert(forall|k: int|
            0 <= k < aliases0.len() ==> store.aliases@[k] == aliases0[k]);
        if headroom {
            assert(failed@.len() == count_import_fails(aliases0, entries, g, entries.len() as int));
            assert(forall|k: int|
                0 <= k < failed@.len() ==> import_failure_listed(
                    aliases0,
                    entries,
                    g,
                    #[trigger] failed@[k],
                ));
        }
    }
    Result::Ok(ImportOutcome { added, failed })
}

} // verus!
