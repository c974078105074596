use vstd::prelude::*;

use crate::models::{
    alias_like, clone_alias, clone_conflict, clone_history_entry, clone_machine, clone_strings,
    clone_sync_entry, conflict_like, history_like, machine_like, strings_like, sync_entry_like,
    Alias, Conflict, HistoryEntry, Machine, SyncHistoryEntry,
};
use crate::strutil::{chars_of, contains_string, contains_sub, spec_contains_str, spec_contains_sub, str_eq};

verus! {

/// Why a state-store operation was refused.
#[derive(Debug, Clone, Copy, PartialEq, Eq, Structural)]
pub enum StoreError {
    /// An alias with the same (name, group) natural key already exists.
    DuplicateAlias,
    /// A new machine's bearer token collides with another machine's token.
    DuplicateToken,
    /// A surrogate id counter has reached its machine limit.
    Full,
}

/// The authoritative state of the sync service: machines, aliases,
/// conflicts, the sync-audit log, shell history, and the history outbox.
/// This is the in-memory model; durability is the caller's concern.
pub struct SyncStore {
    pub machines: Vec<Machine>,
    pub aliases: Vec<Alias>,
    pub conflicts: Vec<Conflict>,
    pub audit: Vec<SyncHistoryEntry>,
    pub history: Vec<HistoryEntry>,
    pub pending: Vec<HistoryEntry>,
    pub next_machine_id: i64,
    pub next_alias_id: i64,
    pub next_conflict_id: i64,
    pub next_audit_id: i64,
}

/// Some alias already carries this (name, group) natural key.
pub open spec fn alias_key_taken(s: Seq<Alias>, name: Seq<char>, group: Seq<char>) -> bool {
    exists|i: int| 0 <= i < s.len() && s[i].name@ == name && s[i].group_name@ == group
}

/// Some alias carries this surrogate id.
pub open spec fn alias_id_taken(s: Seq<Alias>, id: i64) -> bool {
    exists|i: int| 0 <= i < s.len() && s[i].id == id
}

/// Some machine carries this machine id.
pub open spec fn machine_id_taken(s: Seq<Machine>, mid: Seq<char>) -> bool {
    exists|i: int| 0 <= i < s.len() && s[i].machine_id@ == mid
}

/// The index of the machine with this machine id.
pub open spec fn machine_index(ms: Seq<Machine>, mid: Seq<char>) -> int {
    choose|i: int| 0 <= i < ms.len() && ms[i].machine_id@ == mid
}

/// Some machine carries this bearer token.
pub open spec fn token_taken(s: Seq<Machine>, token: Seq<char>) -> bool {
    exists|i: int| 0 <= i < s.len() && s[i].auth_token@ == token
}

/// Some history entry carries this id.
pub open spec fn history_id_taken(s: Seq<HistoryEntry>, id: Seq<char>) -> bool {
    exists|i: int| 0 <= i < s.len() && s[i].id@ == id
}

/// Machines are unique by machine id and by bearer token, and their
/// surrogate ids stay below the next free one.
pub open spec fn machines_wf(s: Seq<Machine>, next_id: i64) -> bool {
    &&& forall|i: int, j: int|
        0 <= i < j < s.len() ==> #[trigger] s[i].machine_id@ != #[trigger] s[j].machine_id@
    &&& forall|i: int, j: int|
        0 <= i < j < s.len() ==> #[trigger] s[i].auth_token@ != #[trigger] s[j].auth_token@
    &&& forall|i: int| 0 <= i < s.len() ==> 1 <= #[trigger] s[i].id < next_id
}

/// Aliases are unique by (name, group) and by id; ids stay below the next
/// free one; versions start at one.
pub open spec fn aliases_wf(s: Seq<Alias>, next_id: i64) -> bool {
    &&& forall|i: int, j: int|
        0 <= i < j < s.len() ==> !(#[trigger] s[i].name@ == #[trigger] s[j].name@
            && s[i].group_name@ == s[j].group_name@)
    &&& forall|i: int, j: int| 0 <= i < j < s.len() ==> #[trigger] s[i].id != #[trigger] s[j].id
    &&& forall|i: int| 0 <= i < s.len() ==> 1 <= #[trigger] s[i].id < next_id
    &&& forall|i: int| 0 <= i < s.len() ==> #[trigger] s[i].version >= 1
}

/// Conflict ids are unique and below the next free one.
pub open spec fn conflicts_wf(s: Seq<Conflict>, next_id: i64) -> bool {
    &&& forall|i: int, j: int| 0 <= i < j < s.len() ==> #[trigger] s[i].id != #[trigger] s[j].id
    &&& forall|i: int| 0 <= i < s.len() ==> 1 <= #[trigger] s[i].id < next_id
}

/// History entries are unique by id.
pub open spec fn history_wf(s: Seq<HistoryEntry>) -> bool {
    forall|i: int, j: int| 0 <= i < j < s.len() ==> #[trigger] s[i].id@ != #[trigger] s[j].id@
}

impl SyncStore {
    /// Whether a machine with this machine id is registered.
    pub open spec fn machine_id_present(self, mid: Seq<char>) -> bool {
        machine_id_taken(self.machines@, mid)
    }

    /// The store's invariant: every uniqueness rule of the data model.
    pub open spec fn wf(self) -> bool {
        &&& machines_wf(self.machines@, self.next_machine_id)
        &&& aliases_wf(self.aliases@, self.next_alias_id)
        &&& conflicts_wf(self.conflicts@, self.next_conflict_id)
        &&& history_wf(self.history@)
        &&& history_wf(self.pending@)
        &&& 1 <= self.next_machine_id
        &&& 1 <= self.next_alias_id
        &&& 1 <= self.next_conflict_id
        &&& 1 <= self.next_audit_id
    }

    /// An empty store.
    pub fn new() -> (r: SyncStore)
        ensures
            r.wf(),
            r.machines@.len() == 0,
            r.aliases@.len() == 0,
            r.conflicts@.len() == 0,
            r.audit@.len() == 0,
            r.history@.len() == 0,
            r.pending@.len() == 0,
            r.next_machine_id == 1,
            r.next_alias_id == 1,
            r.next_conflict_id == 1,
            r.next_audit_id == 1,
    {
        SyncStore {
            machines: Vec::new(),
            aliases: Vec::new(),
            conflicts: Vec::new(),
            audit: Vec::new(),
            history: Vec::new(),
            pending: Vec::new(),
            next_machine_id: 1,
            next_alias_id: 1,
            next_conflict_id: 1,
            next_audit_id: 1,
        }
    }

    fn find_machine_by_id_str(&self, machine_id: &str) -> (r: Option<usize>)
        ensures
            match r {
                Option::Some(i) => i < self.machines@.len()
                    && self.machines@[i as int].machine_id@ == machine_id@,
                Option::None => !machine_id_taken(self.machines@, machine_id@),
            },
    {
        let mut i: usize = 0;
        while i < self.machines.len()
            invariant
                i <= self.machines@.len(),
                forall|j: int| 0 <= j < i ==> #[trigger] self.machines@[j].machine_id@ != machine_id@,
            decreases self.machines@.len() - i,
        {
            if str_eq(self.machines[i].machine_id.as_str(), machine_id) {
                return Option::Some(i);
            }
            i += 1;
        }
        Option::None
    }

    fn find_machine_by_token(&self, token: &str) -> (r: Option<usize>)
        ensures
            match r {
                Option::Some(i) => i < self.machines@.len()
                    && self.machines@[i as int].auth_token@ == token@,
                Option::None => !token_taken(self.machines@, token@),
            },
    {
        let mut i: usize = 0;
        while i < self.machines.len()
            invariant
                i <= self.machines@.len(),
                forall|j: int| 0 <= j < i ==> #[trigger] self.machines@[j].auth_token@ != token@,
            decreases self.machines@.len() - i,
        {
            if str_eq(self.machines[i].auth_token.as_str(), token) {
                return Option::Some(i);
            }
            i += 1;
        }
        Option::None
    }

    /// Upsert by machine id. On a fresh machine id the machine is inserted
    /// and the token recorded; the token is never changed afterwards: on a
    /// known machine id only hostname, groups, os type, last-seen, and
    /// (when given) the public key are replaced.
    pub fn register_machine(
        &mut self,
        machine_id: &str,
        hostname: &str,
        groups: &Vec<String>,
        os_type: &str,
        auth_token: &str,
        public_key: Option<&String>,
        now_ms: i64,
    ) -> (r: Result<(), StoreError>)
        requires
            old(self).wf(),
        ensures
            final(self).wf(),
            final(self).aliases == old(self).aliases,
            final(self).conflicts == old(self).conflicts,
            final(self).audit == old(self).audit,
            final(self).history == old(self).history,
            final(self).pending == old(self).pending,
            final(self).next_alias_id == old(self).next_alias_id,
            final(self).next_audit_id == old(self).next_audit_id,
            final(self).next_conflict_id == old(self).next_conflict_id,
            machine_id_taken(old(self).machines@, machine_id@) ==> final(self).next_machine_id
                == old(self).next_machine_id,
            machine_id_taken(old(self).machines@, machine_id@) ==> {
                let pk_view = match public_key {
                    Option::Some(pk) => Option::Some(pk@),
                    Option::None => Option::<Seq<char>>::None,
                };
                &&& r is Ok
                &&& final(self).machines@.len() == old(self).machines@.len()
                &&& (exists|i: int|
                    #![trigger old(self).machines@[i]]
                    {
                        &&& 0 <= i < old(self).machines@.len()
                        &&& old(self).machines@[i].machine_id@ == machine_id@
                        &&& (forall|j: int|
                            0 <= j < old(self).machines@.len() && j != i
                                ==> final(self).machines@[j] == old(self).machines@[j])
                        &&& upserted_machine(
                            old(self).machines@[i],
                            final(self).machines@[i],
                            hostname@,
                            groups@,
                            os_type@,
                            pk_view,
                            now_ms,
                        )
                    })
            },
            !machine_id_taken(old(self).machines@, machine_id@) && token_taken(
                old(self).machines@,
                auth_token@,
            ) ==> r == Err::<(), StoreError>(StoreError::DuplicateToken) && *final(self) == *old(
                self,
            ),
            !machine_id_taken(old(self).machines@, machine_id@) && !token_taken(
                old(self).machines@,
                auth_token@,
            ) && old(self).next_machine_id == i64::MAX ==> r == Err::<(), StoreError>(
                StoreError::Full,
            ) && *final(self) == *old(self),
            !machine_id_taken(old(self).machines@, machine_id@) && !token_taken(
                old(self).machines@,
                auth_token@,
            ) && old(self).next_machine_id < i64::MAX ==> {
                &&& r is Ok
                &&& final(self).machines@.len() == old(self).machines@.len() + 1
                &&& final(self).machines@ == old(self).machines@.push(
                    final(self).machines@.last(),
                )
                &&& fresh_machine(
                    final(self).machines@.last(),
                    old(self).next_machine_id,
                    machine_id@,
                    hostname@,
                    groups@,
                    os_type@,
                    auth_token@,
                    match public_key {
                        Option::Some(pk) => Option::Some(pk@),
                        Option::None => Option::None,
                    },
                    now_ms,
                )
                &&& final(self).next_machine_id == old(self).next_machine_id + 1
            },
    {
        match self.find_machine_by_id_str(machine_id) {
            Option::Some(i) => {
                let mut m = self.machines.remove(i);
                m.hostname = String::from_str(hostname);
                m.groups = clone_strings(groups);
                m.os_type = Option::Some(String::from_str(os_type));
                m.last_seen = now_ms;
                match public_key {
                    Option::Some(pk) => {
                        m.public_key = Option::Some(pk.clone());
                    },
                    Option::None => {},
                }
                self.machines.insert(i, m);
                proof {
                    assert(final(self).machines@ =~= old(self).machines@.update(
                        i as int,
                        final(self).machines@[i as int],
                    ));
                }
                Result::Ok(())
            },
            Option::None => {
                match self.find_machine_by_token(auth_token) {
                    Option::Some(_) => Result::Err(StoreError::DuplicateToken),
                    Option::None => {
                        if self.next_machine_id == i64::MAX {
                            return Result::Err(StoreError::Full);
                        }
                        let m = Machine {
                            id: self.next_machine_id,
                            machine_id: String::from_str(machine_id),
                            hostname: String::from_str(hostname),
                            groups: clone_strings(groups),
                            os_type: Option::Some(String::from_str(os_type)),
                            auth_token: String::from_str(auth_token),
                            last_seen: now_ms,
                            created_at: now_ms,
                            public_key: match public_key {
                                Option::Some(pk) => Option::Some(pk.clone()),
                                Option::None => Option::None,
                            },
                        };
                        self.machines.push(m);
                        self.next_machine_id = self.next_machine_id + 1;
                        Result::Ok(())
                    },
                }
            },
        }
    }

    /// Looks a machine up by its bearer token.
    pub fn get_machine_by_token(&self, auth_token: &str) -> (r: Option<&Machine>)
        ensures
            match r {
                Option::Some(m) => exists|i: int|
                    0 <= i < self.machines@.len() && *m == #[trigger] self.machines@[i]
                        && m.auth_token@ == auth_token@,
                Option::None => !token_taken(self.machines@, auth_token@),
            },
    {
        match self.find_machine_by_token(auth_token) {
            Option::Some(i) => {
                let m = &self.machines[i];
                assert(*m == self.machines@[i as int]);
                Option::Some(m)
            },
            Option::None => Option::None,
        }
    }

    /// Tests whether a machine with this machine id is registered.
    pub fn machine_id_exec(&self, machine_id: &str) -> (r: bool)
        ensures
            r == self.machine_id_present(machine_id@),
    {
        match self.find_machine_by_id_str(machine_id) {
            Option::Some(i) => {
                proof {
                    assert(machine_id_taken(self.machines@, machine_id@));
                }
                true
            },
            Option::None => false,
        }
    }

    /// Looks a machine up by its machine id.
    pub fn get_machine_by_id(&self, machine_id: &str) -> (r: Option<&Machine>)
        ensures
            match r {
                Option::Some(m) => exists|i: int|
                    0 <= i < self.machines@.len() && *m == #[trigger] self.machines@[i]
                        && m.machine_id@ == machine_id@,
                Option::None => !machine_id_taken(self.machines@, machine_id@),
            },
    {
        match self.find_machine_by_id_str(machine_id) {
            Option::Some(i) => {
                let m = &self.machines[i];
                assert(*m == self.machines@[i as int]);
                Option::Some(m)
            },
            Option::None => Option::None,
        }
    }

    /// Bumps a machine's last-seen stamp; the stamp never moves backwards.
    /// Unknown machine ids are ignored, as the original bookkeeping is
    /// best-effort.
    pub fn update_machine_last_seen(&mut self, machine_id: &str, now_ms: i64)
        requires
            old(self).wf(),
        ensures
            final(self).wf(),
            final(self).machines@.len() == old(self).machines@.len(),
            forall|j: int|
                0 <= j < old(self).machines@.len() && old(self).machines@[j].machine_id@
                    != machine_id@ ==> final(self).machines@[j] == old(self).machines@[j],
            forall|j: int|
                0 <= j < old(self).machines@.len() && old(self).machines@[j].machine_id@
                    == machine_id@ ==> {
                    &&& final(self).machines@[j] == (Machine {
                        last_seen: final(self).machines@[j].last_seen,
                        ..old(self).machines@[j]
                    })
                    &&& final(self).machines@[j].last_seen == if now_ms > old(
                        self,
                    ).machines@[j].last_seen {
                        now_ms
                    } else {
                        old(self).machines@[j].last_seen
                    }
                },
            *final(self) == (SyncStore { machines: final(self).machines, ..*old(self) }),
    {
        match self.find_machine_by_id_str(machine_id) {
            Option::Some(i) => {
                let ghost prev = self.machines@;
                let mut m = self.machines.remove(i);
                if now_ms > m.last_seen {
                    m.last_seen = now_ms;
                }
                self.machines.insert(i, m);
                proof {
                    assert(final(self).machines@ =~= prev.update(
                        i as int,
                        final(self).machines@[i as int],
                    ));
                }
            },
            Option::None => {},
        }
    }

    /// Copies out every registered machine.
    pub fn get_all_machines(&self) -> (r: Vec<Machine>)
        ensures
            r@.len() == self.machines@.len(),
            forall|i: int|
                0 <= i < r@.len() ==> machine_like(#[trigger] r@[i], self.machines@[i]),
    {
        let mut r: Vec<Machine> = Vec::new();
        let mut i: usize = 0;
        while i < self.machines.len()
            invariant
                i <= self.machines@.len(),
                r@.len() == i,
                forall|j: int| 0 <= j < i ==> machine_like(#[trigger] r@[j], self.machines@[j]),
            decreases self.machines@.len() - i,
        {
            r.push(clone_machine(&self.machines[i]));
            i += 1;
        }
        r
    }

    /// Copies out the machines whose group list holds `group_name`,
    /// in registration order.
    pub fn get_machines_by_group(&self, group_name: &str) -> (r: Vec<Machine>)
        ensures
            forall|k: int|
                0 <= k < r@.len() ==> group_member_like(
                    self.machines@,
                    group_name@,
                    #[trigger] r@[k],
                ),
            forall|i: int|
                0 <= i < self.machines@.len() && spec_contains_str(
                    #[trigger] self.machines@[i].groups@,
                    group_name@,
                ) ==> covered_by(r@, self.machines@[i]),
    {
        let mut r: Vec<Machine> = Vec::new();
        let mut i: usize = 0;
        while i < self.machines.len()
            invariant
                i <= self.machines@.len(),
                forall|k: int|
                    0 <= k < r@.len() ==> group_member_like(
                        self.machines@,
                        group_name@,
                        #[trigger] r@[k],
                    ),
                forall|j: int|
                    0 <= j < i && spec_contains_str(
                        #[trigger] self.machines@[j].groups@,
                        group_name@,
                    ) ==> covered_by(r@, self.machines@[j]),
            decreases self.machines@.len() - i,
        {
            if contains_string(&self.machines[i].groups, group_name) {
                let ghost r_prev = r@;
                r.push(clone_machine(&self.machines[i]));
                proof {
                    assert(machine_like(r@[r@.len() - 1], self.machines@[i as int]));
                    assert(group_member_like(
                        self.machines@,
                        group_name@,
                        r@[r@.len() - 1],
                    ));
                    assert(covered_by(r@, self.machines@[i as int]));
                    assert forall|j: int|
                        0 <= j < i && spec_contains_str(
                            self.machines@[j].groups@,
                            group_name@,
                        ) implies covered_by(r@, self.machines@[j]) by {
                        lemma_covered_by_push(r_prev, self.machines@[j], r@[r@.len() - 1]);
                    }
                    assert(forall|k: int| 0 <= k < r_prev.len() ==> r@[k] == r_prev[k]);
                }
            }
            i += 1;
        }
        r
    }
}

/// The machine `m` copies, by content, some registered machine whose
/// group list holds `g`.
pub open spec fn group_member_like(ms: Seq<Machine>, g: Seq<char>, m: Machine) -> bool {
    exists|i: int|
        0 <= i < ms.len() && machine_like(m, #[trigger] ms[i]) && spec_contains_str(ms[i].groups@, g)
}

/// Some element of `rs` copies the machine `m` by content.
pub open spec fn covered_by(rs: Seq<Machine>, m: Machine) -> bool {
    exists|k: int| 0 <= k < rs.len() && machine_like(#[trigger] rs[k], m)
}

proof fn lemma_covered_by_push(rs: Seq<Machine>, m: Machine, x: Machine)
    requires
        covered_by(rs, m),
    ensures
        covered_by(rs.push(x), m),
{
    let k0 = choose|k: int| 0 <= k < rs.len() && machine_like(#[trigger] rs[k], m);
    assert(rs.push(x)[k0] == rs[k0]);
    assert(machine_like(rs.push(x)[k0], m));
}

/// The fields a repeated registration replaces, and those it keeps.
pub open spec fn upserted_machine(
    prev: Machine,
    now: Machine,
    hostname: Seq<char>,
    groups: Seq<String>,
    os_type: Seq<char>,
    public_key: Option<Seq<char>>,
    now_ms: i64,
) -> bool {
    &&& now.id == prev.id
    &&& now.machine_id@ == prev.machine_id@
    &&& now.hostname@ == hostname
    &&& strings_like(now.groups@, groups)
    &&& now.os_type matches Option::Some(os) && os@ == os_type
    &&& now.auth_token == prev.auth_token
    &&& now.last_seen == now_ms
    &&& now.created_at == prev.created_at
    &&& match public_key {
        Option::Some(pk) => now.public_key matches Option::Some(p) && p@ == pk,
        Option::None => now.public_key == prev.public_key,
    }
}

/// The fields of a machine inserted by a first registration.
pub open spec fn fresh_machine(
    m: Machine,
    id: i64,
    machine_id: Seq<char>,
    hostname: Seq<char>,
    groups: Seq<String>,
    os_type: Seq<char>,
    auth_token: Seq<char>,
    public_key: Option<Seq<char>>,
    now_ms: i64,
) -> bool {
    &&& m.id == id
    &&& m.machine_id@ == machine_id
    &&& m.hostname@ == hostname
    &&& strings_like(m.groups@, groups)
    &&& m.os_type matches Option::Some(os) && os@ == os_type
    &&& m.auth_token@ == auth_token
    &&& m.last_seen == now_ms
    &&& m.created_at == now_ms
    &&& match public_key {
        Option::Some(pk) => m.public_key matches Option::Some(p) && p@ == pk,
        Option::None => m.public_key is None,
    }
}

/// Exactly one machine answers to a bearer token that is in use at all:
/// the token-uniqueness invariant makes the authenticated machine unique.
pub proof fn lemma_token_maps_to_one_machine(s: SyncStore, token: Seq<char>)
    requires
        s.wf(),
        token_taken(s.machines@, token),
    ensures
        exists|i: int| 0 <= i < s.machines@.len() && s.machines@[i].auth_token@ == token,
        forall|i: int, j: int|
            0 <= i < s.machines@.len() && 0 <= j < s.machines@.len()
                && s.machines@[i].auth_token@ == token && s.machines@[j].auth_token@ == token
                ==> i == j,
{
}

/// At most one alias carries a given (name, group) natural key.
pub proof fn lemma_alias_natural_key_unique(s: SyncStore, name: Seq<char>, group: Seq<char>)
    requires
        s.wf(),
    ensures
        forall|i: int, j: int|
            0 <= i < s.aliases@.len() && 0 <= j < s.aliases@.len() && s.aliases@[i].name@ == name
                && s.aliases@[i].group_name@ == group && s.aliases@[j].name@ == name
                && s.aliases@[j].group_name@ == group ==> i == j,
{
}


/// The fields of one audit-log entry.
pub open spec fn audit_entry_is(
    e: SyncHistoryEntry,
    id: i64,
    now_ms: i64,
    machine_id: Seq<char>,
    action: Seq<char>,
    alias_name: Seq<char>,
    alias_command: Option<Seq<char>>,
    group_name: Option<Seq<char>>,
) -> bool {
    &&& e.id == id
    &&& e.timestamp == now_ms
    &&& e.machine_id@ == machine_id
    &&& e.action@ == action
    &&& e.alias_name@ == alias_name
    &&& match alias_command {
        Option::Some(c) => e.alias_command matches Option::Some(x) && x@ == c,
        Option::None => e.alias_command is None,
    }
    &&& match group_name {
        Option::Some(g) => e.group_name matches Option::Some(x) && x@ == g,
        Option::None => e.group_name is None,
    }
}

/// The fields of an alias created by a first write.
pub open spec fn new_alias_is(
    a: Alias,
    id: i64,
    name: Seq<char>,
    command: Seq<char>,
    group_name: Seq<char>,
    created_by: Seq<char>,
    now_ms: i64,
) -> bool {
    &&& a.id == id
    &&& a.name@ == name
    &&& a.command@ == command
    &&& a.group_name@ == group_name
    &&& a.created_by_machine@ == created_by
    &&& a.created_at == now_ms
    &&& a.updated_at == now_ms
    &&& a.version == 1
}

impl SyncStore {
    fn find_alias_by_id(&self, id: i64) -> (r: Option<usize>)
        ensures
            match r {
                Option::Some(i) => i < self.aliases@.len() && self.aliases@[i as int].id == id,
                Option::None => !alias_id_taken(self.aliases@, id),
            },
    {
        let mut i: usize = 0;
        while i < self.aliases.len()
            invariant
                i <= self.aliases@.len(),
                forall|j: int| 0 <= j < i ==> #[trigger] self.aliases@[j].id != id,
            decreases self.aliases@.len() - i,
        {
            if self.aliases[i].id == id {
                return Option::Some(i);
            }
            i += 1;
        }
        Option::None
    }

    fn find_alias_by_key(&self, name: &str, group_name: &str) -> (r: Option<usize>)
        ensures
            match r {
                Option::Some(i) => i < self.aliases@.len()
                    && self.aliases@[i as int].name@ == name@
                    && self.aliases@[i as int].group_name@ == group_name@,
                Option::None => !alias_key_taken(self.aliases@, name@, group_name@),
            },
    {
        let mut i: usize = 0;
        while i < self.aliases.len()
            invariant
                i <= self.aliases@.len(),
                forall|j: int|
                    0 <= j < i ==> !(#[trigger] self.aliases@[j].name@ == name@
                        && self.aliases@[j].group_name@ == group_name@),
            decreases self.aliases@.len() - i,
        {
            if str_eq(self.aliases[i].name.as_str(), name) && str_eq(
                self.aliases[i].group_name.as_str(),
                group_name,
            ) {
                return Option::Some(i);
            }
            i += 1;
        }
        Option::None
    }

    fn push_audit(
        &mut self,
        machine_id: &str,
        action: &str,
        alias_name: &str,
        alias_command: Option<&String>,
        group_name: Option<&String>,
        now_ms: i64,
    )
        requires
            old(self).next_audit_id < i64::MAX,
        ensures
            final(self).audit@ == old(self).audit@.push(final(self).audit@.last()),
            audit_entry_is(
                final(self).audit@.last(),
                old(self).next_audit_id,
                now_ms,
                machine_id@,
                action@,
                alias_name@,
                match alias_command {
                    Option::Some(c) => Option::Some(c@),
                    Option::None => Option::<Seq<char>>::None,
                },
                match group_name {
                    Option::Some(g) => Option::Some(g@),
                    Option::None => Option::<Seq<char>>::None,
                },
            ),
            final(self).next_audit_id == old(self).next_audit_id + 1,
            *final(self) == (SyncStore {
                audit: final(self).audit,
                next_audit_id: final(self).next_audit_id,
                ..*old(self)
            }),
    {
        let e = SyncHistoryEntry {
            id: self.next_audit_id,
            timestamp: now_ms,
            machine_id: String::from_str(machine_id),
            action: String::from_str(action),
            alias_name: String::from_str(alias_name),
            alias_command: match alias_command {
                Option::Some(c) => Option::Some(c.clone()),
                Option::None => Option::None,
            },
            group_name: match group_name {
                Option::Some(g) => Option::Some(g.clone()),
                Option::None => Option::None,
            },
        };
        self.audit.push(e);
        self.next_audit_id = self.next_audit_id + 1;
    }

    /// Creates an alias under its (name, group) natural key, at version one,
    /// and appends an `add` entry to the audit log in the same step.
    pub fn add_alias(
        &mut self,
        name: &str,
        command: &str,
        group_name: &str,
        created_by_machine: &str,
        now_ms: i64,
    ) -> (r: Result<Alias, StoreError>)
        requires
            old(self).wf(),
        ensures
            final(self).wf(),
            alias_key_taken(old(self).aliases@, name@, group_name@) ==> r == Err::<
                Alias,
                StoreError,
            >(StoreError::DuplicateAlias) && *final(self) == *old(self),
            !alias_key_taken(old(self).aliases@, name@, group_name@) && (old(self).next_alias_id
                == i64::MAX || old(self).next_audit_id == i64::MAX) ==> r == Err::<
                Alias,
                StoreError,
            >(StoreError::Full) && *final(self) == *old(self),
            !alias_key_taken(old(self).aliases@, name@, group_name@) && old(self).next_alias_id
                < i64::MAX && old(self).next_audit_id < i64::MAX ==> {
                &&& final(self).aliases@ == old(self).aliases@.push(final(self).aliases@.last())
                &&& new_alias_is(
                    final(self).aliases@.last(),
                    old(self).next_alias_id,
                    name@,
                    command@,
                    group_name@,
                    created_by_machine@,
                    now_ms,
                )
                &&& (r matches Ok(a) && alias_like(a, final(self).aliases@.last()))
                &&& final(self).next_alias_id == old(self).next_alias_id + 1
                &&& final(self).audit@ == old(self).audit@.push(final(self).audit@.last())
                &&& audit_entry_is(
                    final(self).audit@.last(),
                    old(self).next_audit_id,
                    now_ms,
                    created_by_machine@,
                    "add"@,
                    name@,
                    Option::Some(command@),
                    Option::Some(group_name@),
                )
                &&& final(self).next_audit_id == old(self).next_audit_id + 1
                &&& final(self).machines == old(self).machines
                &&& final(self).conflicts == old(self).conflicts
                &&& final(self).history == old(self).history
                &&& final(self).pending == old(self).pending
                &&& final(self).next_machine_id == old(self).next_machine_id
                &&& final(self).next_conflict_id == old(self).next_conflict_id
            },
    {
        match self.find_alias_by_key(name, group_name) {
            Option::Some(_) => Result::Err(StoreError::DuplicateAlias),
            Option::None => {
                if self.next_alias_id == i64::MAX || self.next_audit_id == i64::MAX {
                    return Result::Err(StoreError::Full);
                }
                let command_s = String::from_str(command);
                let group_s = String::from_str(group_name);
                let a = Alias {
                    id: self.next_alias_id,
                    name: String::from_str(name),
                    command: command_s.clone(),
                    group_name: group_s.clone(),
                    created_by_machine: String::from_str(created_by_machine),
                    created_at: now_ms,
                    updated_at: now_ms,
                    version: 1,
                };
                let out = clone_alias(&a);
                self.aliases.push(a);
                self.next_alias_id = self.next_alias_id + 1;
                self.push_audit(
                    created_by_machine,
                    "add",
                    name,
                    Option::Some(&command_s),
                    Option::Some(&group_s),
                    now_ms,
                );
                Result::Ok(out)
            },
        }
    }

    /// Replaces an alias command by id, bumping the version by exactly one,
    /// and appends an `update` entry to the audit log. An unknown id is
    /// reported as `Ok(None)`.
    pub fn update_alias(&mut self, id: i64, command: &str, machine_id: &str, now_ms: i64) -> (r:
        Result<Option<Alias>, StoreError>)
        requires
            old(self).wf(),
        ensures
            final(self).wf(),
            !alias_id_taken(old(self).aliases@, id) ==> r == Ok::<Option<Alias>, StoreError>(
                Option::None,
            ) && *final(self) == *old(self),
            alias_id_taken(old(self).aliases@, id) && (old(self).next_audit_id == i64::MAX || (
            exists|j: int|
                0 <= j < old(self).aliases@.len() && #[trigger] old(self).aliases@[j].id == id
                    && old(self).aliases@[j].version == i64::MAX)) ==> r == Err::<
                Option<Alias>,
                StoreError,
            >(StoreError::Full) && *final(self) == *old(self),
            alias_id_taken(old(self).aliases@, id) && old(self).next_audit_id < i64::MAX && (
            forall|j: int|
                0 <= j < old(self).aliases@.len() && #[trigger] old(self).aliases@[j].id == id
                    ==> old(self).aliases@[j].version < i64::MAX) ==> {
                &&& final(self).aliases@.len() == old(self).aliases@.len()
                &&& (forall|j: int|
                    0 <= j < old(self).aliases@.len() && old(self).aliases@[j].id != id
                        ==> final(self).aliases@[j] == old(self).aliases@[j])
                &&& (forall|j: int|
                    0 <= j < old(self).aliases@.len() && old(self).aliases@[j].id == id ==> {
                        &&& final(self).aliases@[j] == (Alias {
                            command: final(self).aliases@[j].command,
                            updated_at: now_ms,
                            version: final(self).aliases@[j].version,
                            ..old(self).aliases@[j]
                        })
                        &&& final(self).aliases@[j].command@ == command@
                        &&& final(self).aliases@[j].version as int == old(
                            self,
                        ).aliases@[j].version as int + 1
                        &&& (r matches Ok(o) && o matches Some(a) && alias_like(
                            a,
                            final(self).aliases@[j],
                        ))
                    })
                &&& final(self).audit@ == old(self).audit@.push(final(self).audit@.last())
                &&& final(self).next_audit_id == old(self).next_audit_id + 1
                &&& final(self).machines == old(self).machines
                &&& final(self).conflicts == old(self).conflicts
                &&& final(self).history == old(self).history
                &&& final(self).pending == old(self).pending
                &&& final(self).next_alias_id == old(self).next_alias_id
                &&& final(self).next_machine_id == old(self).next_machine_id
                &&& final(self).next_conflict_id == old(self).next_conflict_id
            },
            alias_id_taken(old(self).aliases@, id) && old(self).next_audit_id < i64::MAX && (
            forall|j: int|
                0 <= j < old(self).aliases@.len() && #[trigger] old(self).aliases@[j].id == id
                    ==> old(self).aliases@[j].version < i64::MAX) ==> {
                let e = final(self).audit@.last();
                exists|j: int|
                    #![trigger old(self).aliases@[j]]
                    0 <= j < old(self).aliases@.len() && old(self).aliases@[j].id == id
                        && audit_entry_is(
                        e,
                        old(self).next_audit_id,
                        now_ms,
                        machine_id@,
                        "update"@,
                        old(self).aliases@[j].name@,
                        Option::Some(command@),
                        Option::Some(old(self).aliases@[j].group_name@),
                    )
            },
    {
        match self.find_alias_by_id(id) {
            Option::Some(i) => {
                if self.next_audit_id == i64::MAX || self.aliases[i].version == i64::MAX {
                    return Result::Err(StoreError::Full);
                }
                let ghost prev = self.aliases@;
                let mut a = self.aliases.remove(i);
                a.command = String::from_str(command);
                a.updated_at = now_ms;
                a.version = a.version + 1;
                let name_s = a.name.clone();
                let group_s = a.group_name.clone();
                let command_s = a.command.clone();
                let out = clone_alias(&a);
                self.aliases.insert(i, a);
                proof {
                    assert(self.aliases@ =~= prev.update(i as int, self.aliases@[i as int]));
                }
                self.push_audit(
                    machine_id,
                    "update",
                    name_s.as_str(),
                    Option::Some(&command_s),
                    Option::Some(&group_s),
                    now_ms,
                );
                Result::Ok(Option::Some(out))
            },
            Option::None => Result::Ok(Option::None),
        }
    }

    /// Removes an alias by id and appends a `delete` entry to the audit log,
    /// recording the deleted command and group. Returns whether an alias
    /// was removed.
    pub fn delete_alias(&mut self, id: i64, machine_id: &str, now_ms: i64) -> (r: Result<
        bool,
        StoreError,
    >)
        requires
            old(self).wf(),
        ensures
            final(self).wf(),
            !alias_id_taken(old(self).aliases@, id) ==> r == Ok::<bool, StoreError>(false)
                && *final(self) == *old(self),
            alias_id_taken(old(self).aliases@, id) && old(self).next_audit_id == i64::MAX ==> r
                == Err::<bool, StoreError>(StoreError::Full) && *final(self) == *old(self),
            alias_id_taken(old(self).aliases@, id) && old(self).next_audit_id < i64::MAX ==> {
                &&& r == Ok::<bool, StoreError>(true)
                &&& (exists|i: int|
                    #![trigger old(self).aliases@[i]]
                    {
                        &&& 0 <= i < old(self).aliases@.len()
                        &&& old(self).aliases@[i].id == id
                        &&& final(self).aliases@ == old(self).aliases@.remove(i)
                        &&& audit_entry_is(
                            final(self).audit@.last(),
                            old(self).next_audit_id,
                            now_ms,
                            machine_id@,
                            "delete"@,
                            old(self).aliases@[i].name@,
                            Option::Some(old(self).aliases@[i].command@),
                            Option::Some(old(self).aliases@[i].group_name@),
                        )
                    })
                &&& final(self).audit@ == old(self).audit@.push(final(self).audit@.last())
                &&& final(self).next_audit_id == old(self).next_audit_id + 1
                &&& final(self).machines == old(self).machines
                &&& final(self).conflicts == old(self).conflicts
                &&& final(self).history == old(self).history
                &&& final(self).pending == old(self).pending
                &&& final(self).next_alias_id == old(self).next_alias_id
                &&& final(self).next_machine_id == old(self).next_machine_id
                &&& final(self).next_conflict_id == old(self).next_conflict_id
            },
    {
        match self.find_alias_by_id(id) {
            Option::Some(i) => {
                if self.next_audit_id == i64::MAX {
                    return Result::Err(StoreError::Full);
                }
                let a = self.aliases.remove(i);
                self.push_audit(
                    machine_id,
                    "delete",
                    a.name.as_str(),
                    Option::Some(&a.command),
                    Option::Some(&a.group_name),
                    now_ms,
                );
                Result::Ok(true)
            },
            Option::None => Result::Ok(false),
        }
    }

    /// Removes an alias by its (name, group) natural key and appends a
    /// `delete` entry to the audit log. Returns whether an alias was removed.
    pub fn delete_alias_by_name(
        &mut self,
        name: &str,
        group_name: &str,
        machine_id: &str,
        now_ms: i64,
    ) -> (r: Result<bool, StoreError>)
        requires
            old(self).wf(),
        ensures
            final(self).wf(),
            !alias_key_taken(old(self).aliases@, name@, group_name@) ==> r == Ok::<
                bool,
                StoreError,
            >(false) && *final(self) == *old(self),
            alias_key_taken(old(self).aliases@, name@, group_name@) && old(self).next_audit_id
                == i64::MAX ==> r == Err::<bool, StoreError>(StoreError::Full) && *final(self)
                == *old(self),
            alias_key_taken(old(self).aliases@, name@, group_name@) && old(self).next_audit_id
                < i64::MAX ==> {
                &&& r == Ok::<bool, StoreError>(true)
                &&& (exists|i: int|
                    #![trigger old(self).aliases@[i]]
                    {
                        &&& 0 <= i < old(self).aliases@.len()
                        &&& old(self).aliases@[i].name@ == name@
                        &&& old(self).aliases@[i].group_name@ == group_name@
                        &&& final(self).aliases@ == old(self).aliases@.remove(i)
                        &&& audit_entry_is(
                            final(self).audit@.last(),
                            old(self).next_audit_id,
                            now_ms,
                            machine_id@,
                            "delete"@,
                            name@,
                            Option::Some(old(self).aliases@[i].command@),
                            Option::Some(group_name@),
                        )
                    })
                &&& final(self).audit@ == old(self).audit@.push(final(self).audit@.last())
                &&& final(self).next_audit_id == old(self).next_audit_id + 1
                &&& final(self).machines == old(self).machines
                &&& final(self).conflicts == old(self).conflicts
                &&& final(self).history == old(self).history
                &&& final(self).pending == old(self).pending
                &&& final(self).next_alias_id == old(self).next_alias_id
                &&& final(self).next_machine_id == old(self).next_machine_id
                &&& final(self).next_conflict_id == old(self).next_conflict_id
            },
    {
        match self.find_alias_by_key(name, group_name) {
            Option::Some(i) => {
                if self.next_audit_id == i64::MAX {
                    return Result::Err(StoreError::Full);
                }
                let a = self.aliases.remove(i);
                self.push_audit(
                    machine_id,
                    "delete",
                    name,
                    Option::Some(&a.command),
                    Option::Some(&a.group_name),
                    now_ms,
                );
                Result::Ok(true)
            },
            Option::None => Result::Ok(false),
        }
    }

    /// Looks an alias up by its surrogate id.
    pub fn get_alias_by_id(&self, id: i64) -> (r: Option<&Alias>)
        ensures
            match r {
                Option::Some(a) => exists|i: int|
                    0 <= i < self.aliases@.len() && *a == #[trigger] self.aliases@[i] && a.id
                        == id,
                Option::None => !alias_id_taken(self.aliases@, id),
            },
    {
        match self.find_alias_by_id(id) {
            Option::Some(i) => {
                let a = &self.aliases[i];
                assert(*a == self.aliases@[i as int]);
                Option::Some(a)
            },
            Option::None => Option::None,
        }
    }

    /// Looks an alias up by its (name, group) natural key.
    pub fn get_alias_by_name(&self, name: &str, group_name: &str) -> (r: Option<&Alias>)
        ensures
            match r {
                Option::Some(a) => exists|i: int|
                    0 <= i < self.aliases@.len() && *a == #[trigger] self.aliases@[i] && a.name@
                        == name@ && a.group_name@ == group_name@,
                Option::None => !alias_key_taken(self.aliases@, name@, group_name@),
            },
    {
        match self.find_alias_by_key(name, group_name) {
            Option::Some(i) => {
                let a = &self.aliases[i];
                assert(*a == self.aliases@[i as int]);
                Option::Some(a)
            },
            Option::None => Option::None,
        }
    }
}


/// The entry copies, by content, one of the entries in a batch.
/// Whether the `j`-th batch entry carries an id that is new: not stored
/// before the batch and not carried by any earlier batch entry.
pub open spec fn batch_entry_new(
    hist0: Seq<HistoryEntry>,
    entries: Seq<HistoryEntry>,
    j: int,
) -> bool {
    &&& !history_id_taken(hist0, entries[j].id@)
    &&& !(exists|i: int| 0 <= i < j && #[trigger] entries[i].id@ == entries[j].id@)
}

/// How many of the first `upto` batch entries carry a new id.
pub open spec fn count_new_ids(
    hist0: Seq<HistoryEntry>,
    entries: Seq<HistoryEntry>,
    upto: int,
) -> nat
    decreases upto,
{
    if upto <= 0 {
        0
    } else {
        count_new_ids(hist0, entries, upto - 1) + (if batch_entry_new(hist0, entries, upto - 1) {
            1nat
        } else {
            0nat
        })
    }
}

pub open spec fn from_batch(entries: Seq<HistoryEntry>, e: HistoryEntry) -> bool {
    exists|j: int| 0 <= j < entries.len() && history_like(e, #[trigger] entries[j])
}

/// The fields of a conflict created by detection.
pub open spec fn new_conflict_is(
    c: Conflict,
    id: i64,
    alias_name: Seq<char>,
    group_name: Seq<char>,
    local_command: Seq<char>,
    remote_command: Seq<char>,
    machine_id: Seq<char>,
    now_ms: i64,
) -> bool {
    &&& c.id == id
    &&& c.alias_name@ == alias_name
    &&& c.group_name@ == group_name
    &&& c.local_command@ == local_command
    &&& c.remote_command@ == remote_command
    &&& c.machine_id@ == machine_id
    &&& c.created_at == now_ms
    &&& c.resolved == false
    &&& c.resolution is None
}

impl SyncStore {
    /// Records an observed disagreement between a machine's local alias and
    /// the service's version. Returns the new conflict's id.
    pub fn create_conflict(
        &mut self,
        alias_name: &str,
        group_name: &str,
        local_command: &str,
        remote_command: &str,
        machine_id: &str,
        now_ms: i64,
    ) -> (r: Result<i64, StoreError>)
        requires
            old(self).wf(),
        ensures
            final(self).wf(),
            old(self).next_conflict_id == i64::MAX ==> r == Err::<i64, StoreError>(StoreError::Full)
                && *final(self) == *old(self),
            old(self).next_conflict_id < i64::MAX ==> {
                &&& r == Ok::<i64, StoreError>(old(self).next_conflict_id)
                &&& final(self).conflicts@ == old(self).conflicts@.push(
                    final(self).conflicts@.last(),
                )
                &&& new_conflict_is(
                    final(self).conflicts@.last(),
                    old(self).next_conflict_id,
                    alias_name@,
                    group_name@,
                    local_command@,
                    remote_command@,
                    machine_id@,
                    now_ms,
                )
                &&& final(self).next_conflict_id == old(self).next_conflict_id + 1
                &&& *final(self) == (SyncStore {
                    conflicts: final(self).conflicts,
                    next_conflict_id: final(self).next_conflict_id,
                    ..*old(self)
                })
            },
    {
        if self.next_conflict_id == i64::MAX {
            return Result::Err(StoreError::Full);
        }
        let c = Conflict {
            id: self.next_conflict_id,
            alias_name: String::from_str(alias_name),
            group_name: String::from_str(group_name),
            local_command: String::from_str(local_command),
            remote_command: String::from_str(remote_command),
            machine_id: String::from_str(machine_id),
            created_at: now_ms,
            resolved: false,
            resolution: Option::None,
        };
        let id = self.next_conflict_id;
        self.conflicts.push(c);
        self.next_conflict_id = self.next_conflict_id + 1;
        Result::Ok(id)
    }

    /// Marks a conflict resolved, recording the user's resolution. Returns
    /// whether the conflict id was known.
    pub fn resolve_conflict(&mut self, conflict_id: i64, resolution: &str) -> (r: bool)
        requires
            old(self).wf(),
        ensures
            final(self).wf(),
            r == (exists|i: int|
                0 <= i < old(self).conflicts@.len() && #[trigger] old(self).conflicts@[i].id
                    == conflict_id),
            final(self).conflicts@.len() == old(self).conflicts@.len(),
            forall|j: int|
                0 <= j < old(self).conflicts@.len() && old(self).conflicts@[j].id != conflict_id
                    ==> final(self).conflicts@[j] == old(self).conflicts@[j],
            forall|j: int|
                0 <= j < old(self).conflicts@.len() && old(self).conflicts@[j].id == conflict_id
                    ==> {
                    &&& final(self).conflicts@[j] == (Conflict {
                        resolved: true,
                        resolution: final(self).conflicts@[j].resolution,
                        ..old(self).conflicts@[j]
                    })
                    &&& (final(self).conflicts@[j].resolution matches Option::Some(x) && x@
                        == resolution@)
                },
            *final(self) == (SyncStore { conflicts: final(self).conflicts, ..*old(self) }),
    {
        let mut i: usize = 0;
        while i < self.conflicts.len()
            invariant
                old(self).wf(),
                *self == *old(self),
                i <= self.conflicts@.len(),
                forall|j: int| 0 <= j < i ==> #[trigger] self.conflicts@[j].id != conflict_id,
            decreases self.conflicts@.len() - i,
        {
            if self.conflicts[i].id == conflict_id {
                let ghost prev = self.conflicts@;
                let mut c = self.conflicts.remove(i);
                c.resolved = true;
                c.resolution = Option::Some(String::from_str(resolution));
                self.conflicts.insert(i, c);
                proof {
                    assert(self.conflicts@ =~= prev.update(i as int, self.conflicts@[i as int]));
                }
                return true;
            }
            i += 1;
        }
        false
    }

    /// Stores one shell-history entry; an entry whose id is already present
    /// is silently ignored, so insertion is idempotent on the id.
    pub fn insert_history_entry(&mut self, entry: &HistoryEntry)
        requires
            old(self).wf(),
        ensures
            final(self).wf(),
            history_id_taken(old(self).history@, entry.id@) ==> *final(self) == *old(self),
            !history_id_taken(old(self).history@, entry.id@) ==> {
                &&& final(self).history@ == old(self).history@.push(final(self).history@.last())
                &&& history_like(final(self).history@.last(), *entry)
                &&& *final(self) == (SyncStore { history: final(self).history, ..*old(self) })
            },
    {
        let mut i: usize = 0;
        while i < self.history.len()
            invariant
                old(self).wf(),
                *self == *old(self),
                i <= self.history@.len(),
                forall|j: int| 0 <= j < i ==> #[trigger] self.history@[j].id@ != entry.id@,
            decreases self.history@.len() - i,
        {
            if str_eq(self.history[i].id.as_str(), entry.id.as_str()) {
                return ;
            }
            i += 1;
        }
        self.history.push(clone_history_entry(entry));
    }

    /// Stores a batch of history entries in one step, skipping the ids that
    /// are already present. Returns how many entries were actually inserted.
    pub fn insert_history_batch(&mut self, entries: &Vec<HistoryEntry>) -> (count: usize)
        requires
            old(self).wf(),
        ensures
            final(self).wf(),
            count <= entries@.len(),
            count == count_new_ids(old(self).history@, entries@, entries@.len() as int),
            final(self).history@.len() == old(self).history@.len() + count,
            forall|k: int|
                0 <= k < old(self).history@.len() ==> final(self).history@[k] == old(
                    self,
                ).history@[k],
            forall|j: int|
                0 <= j < entries@.len() ==> history_id_taken(
                    final(self).history@,
                    #[trigger] entries@[j].id@,
                ),
            forall|k: int|
                old(self).history@.len() <= k < final(self).history@.len() ==> from_batch(
                    entries@,
                    #[trigger] final(self).history@[k],
                ),
            *final(self) == (SyncStore { history: final(self).history, ..*old(self) }),
    {
        let mut count: usize = 0;
        let mut j: usize = 0;
        while j < entries.len()
            invariant
                old(self).wf(),
                self.wf(),
                j <= entries@.len(),
                count <= j,
                self.history@.len() == old(self).history@.len() + count,
                forall|k: int|
                    0 <= k < old(self).history@.len() ==> self.history@[k] == old(
                        self,
                    ).history@[k],
                forall|jj: int|
                    0 <= jj < j ==> history_id_taken(self.history@, #[trigger] entries@[jj].id@),
                forall|k: int|
                    old(self).history@.len() <= k < self.history@.len() ==> from_batch(
                        entries@,
                        #[trigger] self.history@[k],
                    ),
                count == count_new_ids(old(self).history@, entries@, j as int),
                forall|k: int|
                    old(self).history@.len() <= k < self.history@.len() ==> (exists|i: int|
                        0 <= i < j && entries@[i].id@ == #[trigger] self.history@[k].id@),
                *self == (SyncStore { history: self.history, ..*old(self) }),
            decreases entries@.len() - j,
        {
            let ghost hist_prev = self.history@;
            let len_before = self.history.len();
            self.insert_history_entry(&entries[j]);
            if self.history.len() > len_before {
                count += 1;
            }
            proof {
                if self.history@.len() > hist_prev.len() {
                    assert(self.history@.last().id@ == entries@[j as int].id@);
                    assert(history_id_taken(self.history@, entries@[j as int].id@));
                    assert(history_like(
                        self.history@[self.history@.len() - 1],
                        entries@[j as int],
                    ));
                    assert(from_batch(entries@, self.history@[self.history@.len() - 1]));
                    assert(!history_id_taken(hist_prev, entries@[j as int].id@));
                    assert(!history_id_taken(old(self).history@, entries@[j as int].id@)) by {
                        if history_id_taken(old(self).history@, entries@[j as int].id@) {
                            let w = choose|w: int|
                                0 <= w < old(self).history@.len() && old(self).history@[w].id@
                                    == entries@[j as int].id@;
                            assert(hist_prev[w].id@ == entries@[j as int].id@);
                        }
                    }
                    assert(!(exists|i: int|
                        0 <= i < j && #[trigger] entries@[i].id@ == entries@[j as int].id@)) by {
                        if exists|i: int|
                            0 <= i < j && #[trigger] entries@[i].id@ == entries@[j as int].id@ {
                            let i0 = choose|i: int|
                                0 <= i < j && #[trigger] entries@[i].id@ == entries@[
                                    j as int
                                ].id@;
                            assert(history_id_taken(hist_prev, entries@[i0].id@));
                        }
                    }
                    assert(batch_entry_new(old(self).history@, entries@, j as int));
                } else {
                    assert(history_id_taken(hist_prev, entries@[j as int].id@));
                    assert(!batch_entry_new(old(self).history@, entries@, j as int)) by {
                        if batch_entry_new(old(self).history@, entries@, j as int) {
                            let w = choose|w: int|
                                0 <= w < hist_prev.len() && hist_prev[w].id@ == entries@[
                                    j as int
                                ].id@;
                            if w < old(self).history@.len() {
                                assert(old(self).history@[w].id@ == entries@[j as int].id@);
                                assert(history_id_taken(
                                    old(self).history@,
                                    entries@[j as int].id@,
                                ));
                            } else {
                                assert(exists|i: int|
                                    0 <= i < j && entries@[i].id@ == #[trigger] hist_prev[w].id@);
                            }
                        }
                    }
                }
                assert(count_new_ids(old(self).history@, entries@, j + 1) == count_new_ids(
                    old(self).history@,
                    entries@,
                    j as int,
                ) + (if batch_entry_new(old(self).history@, entries@, j as int) {
                    1int
                } else {
                    0int
                }));
                assert forall|k: int|
                    old(self).history@.len() <= k < self.history@.len() implies (exists|i: int|
                    0 <= i < j + 1 && entries@[i].id@ == #[trigger] self.history@[k].id@) by {
                    if k < hist_prev.len() {
                        assert(self.history@[k] == hist_prev[k]);
                        let i0 = choose|i: int|
                            0 <= i < j && entries@[i].id@ == #[trigger] hist_prev[k].id@;
                        assert(0 <= i0 < j + 1 && entries@[i0].id@ == self.history@[k].id@);
                    } else {
                        assert(self.history@[k].id@ == entries@[j as int].id@);
                    }
                }
                assert forall|jj: int| 0 <= jj < j + 1 implies history_id_taken(
                    self.history@,
                    #[trigger] entries@[jj].id@,
                ) by {
                    if jj < j {
                        let w = choose|w: int|
                            0 <= w < hist_prev.len() && hist_prev[w].id@ == entries@[jj].id@;
                        assert(self.history@[w].id@ == entries@[jj].id@);
                    }
                }
            }
            j += 1;
        }
        count
    }

    /// How many history entries the store holds, saturating at the largest
    /// representable count.
    pub fn get_history_count(&self) -> (r: i64)
        ensures
            r == if self.history@.len() <= i64::MAX {
                self.history@.len() as int
            } else {
                i64::MAX as int
            },
    {
        let n = self.history.len();
        if (n as u64) <= (i64::MAX as u64) {
            n as i64
        } else {
            i64::MAX
        }
    }

    /// Removes one history entry by id. Returns whether it was present.
    pub fn delete_history_entry(&mut self, id: &str) -> (r: bool)
        requires
            old(self).wf(),
        ensures
            final(self).wf(),
            !history_id_taken(old(self).history@, id@) ==> r == false && *final(self) == *old(
                self,
            ),
            history_id_taken(old(self).history@, id@) ==> r == true && (exists|i: int|
                #![trigger old(self).history@[i]]
                {
                    &&& 0 <= i < old(self).history@.len()
                    &&& old(self).history@[i].id@ == id@
                    &&& final(self).history@ == old(self).history@.remove(i)
                    &&& *final(self) == (SyncStore { history: final(self).history, ..*old(self) })
                }),
    {
        let mut i: usize = 0;
        while i < self.history.len()
            invariant
                old(self).wf(),
                *self == *old(self),
                i <= self.history@.len(),
                forall|j: int| 0 <= j < i ==> #[trigger] self.history@[j].id@ != id@,
            decreases self.history@.len() - i,
        {
            if str_eq(self.history[i].id.as_str(), id) {
                self.history.remove(i);
                return true;
            }
            i += 1;
        }
        false
    }

    /// Appends one entry to the history outbox; an entry whose id is already
    /// queued is ignored.
    pub fn add_history_pending(&mut self, entry: &HistoryEntry)
        requires
            old(self).wf(),
        ensures
            final(self).wf(),
            history_id_taken(old(self).pending@, entry.id@) ==> *final(self) == *old(self),
            !history_id_taken(old(self).pending@, entry.id@) ==> {
                &&& final(self).pending@ == old(self).pending@.push(final(self).pending@.last())
                &&& history_like(final(self).pending@.last(), *entry)
                &&& *final(self) == (SyncStore { pending: final(self).pending, ..*old(self) })
            },
    {
        let mut i: usize = 0;
        while i < self.pending.len()
            invariant
                old(self).wf(),
                *self == *old(self),
                i <= self.pending@.len(),
                forall|j: int| 0 <= j < i ==> #[trigger] self.pending@[j].id@ != entry.id@,
            decreases self.pending@.len() - i,
        {
            if str_eq(self.pending[i].id.as_str(), entry.id.as_str()) {
                return ;
            }
            i += 1;
        }
        self.pending.push(clone_history_entry(entry));
    }

    /// Copies out the oldest queued outbox entries, in queue order, up to
    /// `limit`; a negative limit means no bound, as in the original store.
    pub fn get_pending_history(&self, limit: i64) -> (r: Vec<HistoryEntry>)
        ensures
            r@.len() == if limit < 0 || limit as int > self.pending@.len() {
                self.pending@.len() as int
            } else {
                limit as int
            },
            forall|k: int|
                0 <= k < r@.len() ==> history_like(#[trigger] r@[k], self.pending@[k]),
    {
        let n: usize = if limit < 0 {
            self.pending.len()
        } else if (limit as u64) >= (self.pending.len() as u64) {
            self.pending.len()
        } else {
            limit as usize
        };
        let mut r: Vec<HistoryEntry> = Vec::new();
        let mut i: usize = 0;
        while i < n
            invariant
                n <= self.pending@.len(),
                i <= n,
                r@.len() == i,
                forall|k: int| 0 <= k < i ==> history_like(#[trigger] r@[k], self.pending@[k]),
            decreases n - i,
        {
            r.push(clone_history_entry(&self.pending[i]));
            i += 1;
        }
        r
    }

    /// Drops every outbox entry whose id stands in `ids`, keeping the rest
    /// in queue order.
    pub fn remove_pending_history(&mut self, ids: &Vec<String>)
        requires
            old(self).wf(),
        ensures
            final(self).wf(),
            final(self).pending@ == old(self).pending@.filter(
                |e: HistoryEntry| !spec_contains_str(ids@, e.id@),
            ),
            *final(self) == (SyncStore { pending: final(self).pending, ..*old(self) }),
    {
        let ghost pred = |e: HistoryEntry| !spec_contains_str(ids@, e.id@);
        let mut kept: Vec<HistoryEntry> = Vec::new();
        let mut src: Vec<HistoryEntry> = Vec::new();
        core::mem::swap(&mut src, &mut self.pending);
        let ghost src0 = src@;
        proof {
            assert(src0.subrange(0, 0).filter(pred) =~= kept@);
        }
        while src.len() > 0
            invariant
                src@.len() <= src0.len(),
                src@ =~= src0.subrange(src0.len() - src@.len(), src0.len() as int),
                kept@ =~= src0.subrange(0, src0.len() - src@.len()).filter(pred),
                pred == (|e: HistoryEntry| !spec_contains_str(ids@, e.id@)),
            decreases src@.len(),
        {
            let ghost done = src0.len() - src@.len();
            let ghost kept_prev = kept@;
            let e = src.remove(0);
            proof {
                assert(e == src0[done]);
            }
            let keep = !contains_string(ids, e.id.as_str());
            if keep {
                kept.push(e);
            }
            proof {
                reveal(Seq::filter);
                let p1 = src0.subrange(0, done + 1);
                assert(p1.drop_last() =~= src0.subrange(0, done));
                assert(p1.last() == src0[done]);
                assert(kept@ =~= p1.filter(pred));
                assert(src@ =~= src0.subrange(src0.len() - src@.len(), src0.len() as int));
            }
        }
        proof {
            assert(src0.subrange(0, src0.len() as int) =~= src0);
        }
        self.pending = kept;
        proof {
            lemma_filter_wf(src0, ids@);
        }
    }
}

/// Every element that a filter keeps was in the sequence.
proof fn lemma_filter_subset<A>(s: Seq<A>, pred: spec_fn(A) -> bool)
    ensures
        forall|x: A| #[trigger] s.filter(pred).contains(x) ==> s.contains(x),
    decreases s.len(),
{
    reveal(Seq::filter);
    if s.len() > 0 {
        lemma_filter_subset(s.drop_last(), pred);
        assert forall|x: A| #[trigger] s.filter(pred).contains(x) implies s.contains(x) by {
            let f = s.filter(pred);
            let w = choose|w: int| 0 <= w < f.len() && f[w] == x;
            if pred(s.last()) && w == f.len() - 1 {
                assert(s[s.len() - 1] == x);
            } else {
                assert(s.drop_last().filter(pred).contains(x));
                let v = choose|v: int| 0 <= v < s.drop_last().len() && s.drop_last()[v] == x;
                assert(s[v] == x);
            }
        }
    }
}

/// Filtering a well-formed history sequence keeps it well-formed.
proof fn lemma_filter_wf(s: Seq<HistoryEntry>, ids: Seq<String>)
    requires
        history_wf(s),
    ensures
        history_wf(s.filter(|e: HistoryEntry| !spec_contains_str(ids, e.id@))),
    decreases s.len(),
{
    reveal(Seq::filter);
    let pred = |e: HistoryEntry| !spec_contains_str(ids, e.id@);
    if s.len() > 0 {
        let prefix = s.drop_last();
        assert(history_wf(prefix));
        lemma_filter_wf(prefix, ids);
        lemma_filter_subset(prefix, pred);
        if pred(s.last()) {
            let f = prefix.filter(pred).push(s.last());
            assert(s.filter(pred) == f);
            assert forall|i: int, j: int| 0 <= i < j < f.len() implies #[trigger] f[i].id@
                != #[trigger] f[j].id@ by {
                if j == f.len() - 1 {
                    let fi = f[i];
                    assert(prefix.filter(pred)[i] == fi);
                    assert(prefix.filter(pred).contains(fi));
                    assert(prefix.contains(fi));
                    let w = choose|w: int| 0 <= w < prefix.len() && prefix[w] == fi;
                    assert(s[w] == fi);
                    assert(s[w].id@ != s.last().id@);
                }
            }
        }
    }
}


/// An optional borrowed string, seen as an optional character sequence.
pub open spec fn opt_view(o: Option<&str>) -> Option<Seq<char>> {
    match o {
        Option::Some(x) => Option::Some(x@),
        Option::None => Option::None,
    }
}

/// The history-search predicate: the command holds the query as a substring,
/// and each given filter field matches exactly.
pub open spec fn search_matches(
    e: HistoryEntry,
    q: Seq<char>,
    mid: Option<Seq<char>>,
    sid: Option<Seq<char>>,
    cwd: Option<Seq<char>>,
) -> bool {
    &&& spec_contains_sub(e.command@, q)
    &&& (mid matches Option::Some(m) ==> e.machine_id@ == m)
    &&& (sid matches Option::Some(x) ==> e.session_id@ == x)
    &&& (cwd matches Option::Some(x) ==> e.cwd@ == x)
}

/// The entry copies, by content, a stored entry that matches the search.
pub open spec fn search_source(
    h: Seq<HistoryEntry>,
    q: Seq<char>,
    mid: Option<Seq<char>>,
    sid: Option<Seq<char>>,
    cwd: Option<Seq<char>>,
    e: HistoryEntry,
) -> bool {
    exists|i: int|
        0 <= i < h.len() && history_like(e, #[trigger] h[i]) && search_matches(h[i], q, mid, sid, cwd)
}

/// Some element of `rs` copies the entry `e` by content.
pub open spec fn hist_covered(rs: Seq<HistoryEntry>, e: HistoryEntry) -> bool {
    exists|k: int| 0 <= k < rs.len() && history_like(#[trigger] rs[k], e)
}

/// The alias copies, by content, a stored alias whose group is in `groups`.
pub open spec fn alias_group_source(s: Seq<Alias>, groups: Seq<String>, a: Alias) -> bool {
    exists|i: int|
        0 <= i < s.len() && alias_like(a, #[trigger] s[i]) && spec_contains_str(
            groups,
            s[i].group_name@,
        )
}

/// The alias copies, by content, some stored alias.
pub open spec fn alias_source(s: Seq<Alias>, a: Alias) -> bool {
    exists|i: int| 0 <= i < s.len() && alias_like(a, #[trigger] s[i])
}

/// Some element of `rs` copies the alias `a` by content.
pub open spec fn alias_covered(rs: Seq<Alias>, a: Alias) -> bool {
    exists|k: int| 0 <= k < rs.len() && alias_like(#[trigger] rs[k], a)
}

/// The audit entry copies, by content, some stored audit entry.
pub open spec fn audit_source(s: Seq<SyncHistoryEntry>, e: SyncHistoryEntry) -> bool {
    exists|i: int| 0 <= i < s.len() && sync_entry_like(e, #[trigger] s[i])
}

/// Some element of `rs` copies the audit entry `e` by content.
pub open spec fn audit_covered(rs: Seq<SyncHistoryEntry>, e: SyncHistoryEntry) -> bool {
    exists|k: int| 0 <= k < rs.len() && sync_entry_like(#[trigger] rs[k], e)
}

/// The conflict copies, by content, a stored unresolved conflict of this
/// machine.
pub open spec fn conflict_source(s: Seq<Conflict>, mid: Seq<char>, c: Conflict) -> bool {
    exists|i: int|
        0 <= i < s.len() && conflict_like(c, #[trigger] s[i]) && s[i].machine_id@ == mid
            && !s[i].resolved
}

/// Some element of `rs` copies the conflict `c` by content.
pub open spec fn conflict_covered(rs: Seq<Conflict>, c: Conflict) -> bool {
    exists|k: int| 0 <= k < rs.len() && conflict_like(#[trigger] rs[k], c)
}

/// How many aliases fall in one of the groups.
pub open spec fn count_in_groups(s: Seq<Alias>, groups: Seq<String>) -> nat
    decreases s.len(),
{
    if s.len() == 0 {
        0
    } else {
        count_in_groups(s.drop_last(), groups) + if spec_contains_str(
            groups,
            s.last().group_name@,
        ) {
            1nat
        } else {
            0nat
        }
    }
}

/// How many history entries match the search.
pub open spec fn count_matching(
    h: Seq<HistoryEntry>,
    q: Seq<char>,
    mid: Option<Seq<char>>,
    sid: Option<Seq<char>>,
    cwd: Option<Seq<char>>,
) -> nat
    decreases h.len(),
{
    if h.len() == 0 {
        0
    } else {
        count_matching(h.drop_last(), q, mid, sid, cwd) + if search_matches(
            h.last(),
            q,
            mid,
            sid,
            cwd,
        ) {
            1nat
        } else {
            0nat
        }
    }
}

/// How many history entries lie after the cursor in the group.
pub open spec fn count_after(h: Seq<HistoryEntry>, after: i64, group: Seq<char>) -> nat
    decreases h.len(),
{
    if h.len() == 0 {
        0
    } else {
        count_after(h.drop_last(), after, group) + if h.last().timestamp > after
            && h.last().group_name@ == group {
            1nat
        } else {
            0nat
        }
    }
}

/// How many unresolved conflicts this machine holds.
pub open spec fn count_conflicts_of(s: Seq<Conflict>, mid: Seq<char>) -> nat
    decreases s.len(),
{
    if s.len() == 0 {
        0
    } else {
        count_conflicts_of(s.drop_last(), mid) + if s.last().machine_id@ == mid
            && !s.last().resolved {
            1nat
        } else {
            0nat
        }
    }
}

/// Where a paged result starts: the offset, clamped into the sequence.
pub open spec fn win_start(n: int, off: int) -> int {
    if off <= 0 {
        0
    } else if off > n {
        n
    } else {
        off
    }
}

/// Where a paged result ends: `limit` entries past the start, a negative
/// limit meaning no bound, as in the original store's queries.
pub open spec fn win_end(n: int, start: int, lim: int) -> int {
    if lim < 0 {
        n
    } else if start + lim > n {
        n
    } else {
        start + lim
    }
}

/// A permutation holds the same values.
proof fn lemma_perm_contains<A>(a: Seq<A>, b: Seq<A>)
    requires
        a.to_multiset() == b.to_multiset(),
    ensures
        forall|x: A| #[trigger] a.contains(x) ==> b.contains(x),
        forall|x: A| #[trigger] b.contains(x) ==> a.contains(x),
{
    a.to_multiset_ensures();
    b.to_multiset_ensures();
    assert forall|x: A| #[trigger] a.contains(x) implies b.contains(x) by {
        assert(a.to_multiset().count(x) > 0);
        assert(b.to_multiset().count(x) > 0);
    }
    assert forall|x: A| #[trigger] b.contains(x) implies a.contains(x) by {
        assert(b.to_multiset().count(x) > 0);
        assert(a.to_multiset().count(x) > 0);
    }
}


/// Cuts a history list to the page `[offset, offset + limit)`, with the
/// offset clamped and a negative limit meaning no bound.
fn window_hist(v: Vec<HistoryEntry>, offset: i64, limit: i64) -> (r: Vec<HistoryEntry>)
    ensures
        r@ == v@.subrange(
            win_start(v@.len() as int, offset as int),
            win_end(v@.len() as int, win_start(v@.len() as int, offset as int), limit as int),
        ),
{
    let len = v.len();
    let mut out = v;
    let start: usize = if offset <= 0 {
        0
    } else if (offset as u64) >= (len as u64) {
        len
    } else {
        offset as usize
    };
    let end: usize = if limit < 0 {
        len
    } else {
        let rem = len - start;
        if (limit as u64) >= (rem as u64) {
            len
        } else {
            start + (limit as usize)
        }
    };
    out.truncate(end);
    let ghost mid = out@;
    let mut k: usize = 0;
    while k < start
        invariant
            len == v@.len(),
            start <= end <= len,
            mid == v@.subrange(0, end as int),
            mid.len() == end,
            k <= start,
            out@ == mid.subrange(k as int, end as int),
        decreases start - k,
    {
        proof {
            assert(out@.len() == end - k);
        }
        out.remove(0);
        proof {
            assert(out@ =~= mid.subrange(k as int + 1, end as int));
        }
        k += 1;
    }
    proof {
        assert(out@ =~= v@.subrange(start as int, end as int));
        assert(start as int == win_start(v@.len() as int, offset as int));
        assert(end as int == win_end(v@.len() as int, start as int, limit as int));
    }
    out
}

/// Cuts an audit list to its first `limit` entries; a negative limit means
/// no bound.
fn take_audit(v: Vec<SyncHistoryEntry>, limit: i64) -> (r: Vec<SyncHistoryEntry>)
    ensures
        r@ == v@.subrange(0, win_end(v@.len() as int, 0, limit as int)),
{
    let len = v.len();
    let mut out = v;
    let end: usize = if limit < 0 {
        len
    } else if (limit as u64) >= (len as u64) {
        len
    } else {
        limit as usize
    };
    out.truncate(end);
    out
}

impl SyncStore {
    /// Copies out the aliases whose group stands in `groups`, ordered by
    /// name. An empty group list yields an empty result.
    pub fn get_aliases_by_groups(&self, groups: &Vec<String>) -> (r: Vec<Alias>)
        ensures
            r@.len() == count_in_groups(self.aliases@, groups@),
            forall|i: int, j: int|
                0 <= i < j < r@.len() ==> crate::sortutil::alias_le(
                    false,
                    #[trigger] r@[i],
                    #[trigger] r@[j],
                ),
            forall|k: int|
                0 <= k < r@.len() ==> alias_group_source(self.aliases@, groups@, #[trigger] r@[k]),
            forall|i: int|
                0 <= i < self.aliases@.len() && spec_contains_str(
                    groups@,
                    #[trigger] self.aliases@[i].group_name@,
                ) ==> alias_covered(r@, self.aliases@[i]),
    {
        let mut c: Vec<Alias> = Vec::new();
        let mut i: usize = 0;
        while i < self.aliases.len()
            invariant
                i <= self.aliases@.len(),
                c@.len() == count_in_groups(self.aliases@.subrange(0, i as int), groups@),
                forall|k: int|
                    0 <= k < c@.len() ==> alias_group_source(
                        self.aliases@,
                        groups@,
                        #[trigger] c@[k],
                    ),
                forall|j: int|
                    0 <= j < i && spec_contains_str(
                        groups@,
                        #[trigger] self.aliases@[j].group_name@,
                    ) ==> alias_covered(c@, self.aliases@[j]),
            decreases self.aliases@.len() - i,
        {
            let ghost c_prev = c@;
            let hit = contains_string(groups, self.aliases[i].group_name.as_str());
            if hit {
                c.push(clone_alias(&self.aliases[i]));
                proof {
                    assert(alias_like(c@[c@.len() - 1], self.aliases@[i as int]));
                    assert(alias_group_source(self.aliases@, groups@, c@[c@.len() - 1]));
                    assert(alias_covered(c@, self.aliases@[i as int]));
                    assert forall|j: int|
                        0 <= j < i && spec_contains_str(
                            groups@,
                            #[trigger] self.aliases@[j].group_name@,
                        ) implies alias_covered(c@, self.aliases@[j]) by {
                        let k0 = choose|k0: int|
                            0 <= k0 < c_prev.len() && alias_like(
                                #[trigger] c_prev[k0],
                                self.aliases@[j],
                            );
                        assert(c@[k0] == c_prev[k0]);
                        assert(alias_like(c@[k0], self.aliases@[j]));
                    }
                }
            }
            proof {
                let p1 = self.aliases@.subrange(0, i + 1 as int);
                assert(p1.drop_last() =~= self.aliases@.subrange(0, i as int));
                assert(p1.last() == self.aliases@[i as int]);
            }
            i += 1;
        }
        proof {
            assert(self.aliases@.subrange(0, self.aliases@.len() as int) =~= self.aliases@);
        }
        let ghost c0 = c@;
        let r = crate::sortutil::sort_aliases(c, false);
        proof {
            lemma_perm_contains(r@, c0);
            assert forall|k: int| 0 <= k < r@.len() implies alias_group_source(
                self.aliases@,
                groups@,
                #[trigger] r@[k],
            ) by {
                assert(r@.contains(r@[k]));
                assert(c0.contains(r@[k]));
                let m = choose|m: int| 0 <= m < c0.len() && c0[m] == r@[k];
                assert(alias_group_source(self.aliases@, groups@, c0[m]));
            }
            assert forall|i: int|
                0 <= i < self.aliases@.len() && spec_contains_str(
                    groups@,
                    #[trigger] self.aliases@[i].group_name@,
                ) implies alias_covered(r@, self.aliases@[i]) by {
                let k0 = choose|k0: int|
                    0 <= k0 < c0.len() && alias_like(#[trigger] c0[k0], self.aliases@[i]);
                assert(c0.contains(c0[k0]));
                assert(r@.contains(c0[k0]));
                let n = choose|n: int| 0 <= n < r@.len() && r@[n] == c0[k0];
                assert(alias_like(r@[n], self.aliases@[i]));
            }
        }
        r
    }

    /// Copies out every alias, ordered by group and then name.
    pub fn get_all_aliases(&self) -> (r: Vec<Alias>)
        ensures
            r@.len() == self.aliases@.len(),
            forall|i: int, j: int|
                0 <= i < j < r@.len() ==> crate::sortutil::alias_le(
                    true,
                    #[trigger] r@[i],
                    #[trigger] r@[j],
                ),
            forall|k: int|
                0 <= k < r@.len() ==> alias_source(self.aliases@, #[trigger] r@[k]),
            forall|i: int|
                0 <= i < self.aliases@.len() ==> alias_covered(r@, #[trigger] self.aliases@[i]),
    {
        let mut c: Vec<Alias> = Vec::new();
        let mut i: usize = 0;
        while i < self.aliases.len()
            invariant
                i <= self.aliases@.len(),
                c@.len() == i,
                forall|k: int| 0 <= k < i ==> alias_like(#[trigger] c@[k], self.aliases@[k]),
            decreases self.aliases@.len() - i,
        {
            c.push(clone_alias(&self.aliases[i]));
            i += 1;
        }
        let ghost c0 = c@;
        proof {
            assert forall|k: int| 0 <= k < c0.len() implies alias_source(
                self.aliases@,
                #[trigger] c0[k],
            ) by {
                assert(alias_like(c0[k], self.aliases@[k]));
            }
        }
        let r = crate::sortutil::sort_aliases(c, true);
        proof {
            lemma_perm_contains(r@, c0);
            assert forall|k: int| 0 <= k < r@.len() implies alias_source(
                self.aliases@,
                #[trigger] r@[k],
            ) by {
                assert(r@.contains(r@[k]));
                assert(c0.contains(r@[k]));
                let m = choose|m: int| 0 <= m < c0.len() && c0[m] == r@[k];
                assert(alias_source(self.aliases@, c0[m]));
            }
            assert forall|i: int| 0 <= i < self.aliases@.len() implies alias_covered(
                r@,
                #[trigger] self.aliases@[i],
            ) by {
                assert(alias_like(c0[i], self.aliases@[i]));
                assert(c0.contains(c0[i]));
                assert(r@.contains(c0[i]));
                let n = choose|n: int| 0 <= n < r@.len() && r@[n] == c0[i];
                assert(alias_like(r@[n], self.aliases@[i]));
            }
        }
        r
    }

    /// Copies out the newest audit-log entries, newest first, bounded by
    /// `limit`; a negative limit means no bound. Entries left out are no
    /// newer than any returned one.
    pub fn get_history(&self, limit: i64) -> (r: Vec<SyncHistoryEntry>)
        ensures
            r@.len() == win_end(self.audit@.len() as int, 0, limit as int),
            forall|i: int, j: int|
                0 <= i < j < r@.len() ==> #[trigger] r@[i].timestamp >= #[trigger] r@[j].timestamp,
            forall|k: int|
                0 <= k < r@.len() ==> audit_source(self.audit@, #[trigger] r@[k]),
            forall|i: int|
                0 <= i < self.audit@.len() && !audit_covered(r@, #[trigger] self.audit@[i])
                    ==> (forall|k: int|
                    0 <= k < r@.len() ==> #[trigger] r@[k].timestamp >= self.audit@[i].timestamp),
    {
        let mut c: Vec<SyncHistoryEntry> = Vec::new();
        let mut i: usize = 0;
        while i < self.audit.len()
            invariant
                i <= self.audit@.len(),
                c@.len() == i,
                forall|k: int| 0 <= k < i ==> sync_entry_like(#[trigger] c@[k], self.audit@[k]),
            decreases self.audit@.len() - i,
        {
            c.push(clone_sync_entry(&self.audit[i]));
            i += 1;
        }
        let ghost c0 = c@;
        let s = crate::sortutil::sort_audit_desc(c);
        let ghost s0 = s@;
        let r = take_audit(s, limit);
        proof {
            lemma_perm_contains(s0, c0);
            assert forall|k: int| 0 <= k < r@.len() implies audit_source(
                self.audit@,
                #[trigger] r@[k],
            ) by {
                assert(r@[k] == s0[k]);
                assert(s0.contains(s0[k]));
                assert(c0.contains(s0[k]));
                let m = choose|m: int| 0 <= m < c0.len() && c0[m] == s0[k];
                assert(sync_entry_like(c0[m], self.audit@[m]));
            }
            assert forall|i2: int|
                0 <= i2 < self.audit@.len() && !audit_covered(r@, #[trigger] self.audit@[i2])
                    implies (forall|k: int|
                0 <= k < r@.len() ==> #[trigger] r@[k].timestamp >= self.audit@[i2].timestamp) by {
                assert(sync_entry_like(c0[i2], self.audit@[i2]));
                assert(c0.contains(c0[i2]));
                assert(s0.contains(c0[i2]));
                let n = choose|n: int| 0 <= n < s0.len() && s0[n] == c0[i2];
                if n < r@.len() {
                    assert(r@[n] == s0[n]);
                    assert(sync_entry_like(r@[n], self.audit@[i2]));
                    assert(audit_covered(r@, self.audit@[i2]));
                } else {
                    assert forall|k: int| 0 <= k < r@.len() implies #[trigger] r@[k].timestamp
                        >= self.audit@[i2].timestamp by {
                        assert(crate::sortutil::audit_le(s0[k], s0[n]));
                        assert(s0[n].timestamp == self.audit@[i2].timestamp);
                    }
                }
            }
        }
        r
    }

    /// Copies out the unresolved conflicts recorded for one machine, newest
    /// first.
    pub fn get_conflicts_by_machine(&self, machine_id: &str) -> (r: Vec<Conflict>)
        ensures
            r@.len() == count_conflicts_of(self.conflicts@, machine_id@),
            forall|i: int, j: int|
                0 <= i < j < r@.len() ==> #[trigger] r@[i].created_at >= #[trigger] r@[j].created_at,
            forall|k: int|
                0 <= k < r@.len() ==> conflict_source(self.conflicts@, machine_id@, #[trigger] r@[k]),
            forall|i: int|
                0 <= i < self.conflicts@.len() && #[trigger] self.conflicts@[i].machine_id@
                    == machine_id@ && !self.conflicts@[i].resolved ==> conflict_covered(
                    r@,
                    self.conflicts@[i],
                ),
    {
        let mut c: Vec<Conflict> = Vec::new();
        let mut i: usize = 0;
        while i < self.conflicts.len()
            invariant
                i <= self.conflicts@.len(),
                c@.len() == count_conflicts_of(self.conflicts@.subrange(0, i as int), machine_id@),
                forall|k: int|
                    0 <= k < c@.len() ==> conflict_source(
                        self.conflicts@,
                        machine_id@,
                        #[trigger] c@[k],
                    ),
                forall|j: int|
                    0 <= j < i && #[trigger] self.conflicts@[j].machine_id@ == machine_id@
                        && !self.conflicts@[j].resolved ==> conflict_covered(
                        c@,
                        self.conflicts@[j],
                    ),
            decreases self.conflicts@.len() - i,
        {
            let ghost c_prev = c@;
            let hit = str_eq(self.conflicts[i].machine_id.as_str(), machine_id)
                && !self.conflicts[i].resolved;
            if hit {
                c.push(clone_conflict(&self.conflicts[i]));
                proof {
                    assert(conflict_like(c@[c@.len() - 1], self.conflicts@[i as int]));
                    assert(conflict_covered(c@, self.conflicts@[i as int]));
                    assert forall|j: int|
                        0 <= j < i && #[trigger] self.conflicts@[j].machine_id@ == machine_id@
                            && !self.conflicts@[j].resolved implies conflict_covered(
                        c@,
                        self.conflicts@[j],
                    ) by {
                        let k0 = choose|k0: int|
                            0 <= k0 < c_prev.len() && conflict_like(
                                #[trigger] c_prev[k0],
                                self.conflicts@[j],
                            );
                        assert(c@[k0] == c_prev[k0]);
                        assert(conflict_like(c@[k0], self.conflicts@[j]));
                    }
                }
            }
            proof {
                let p1 = self.conflicts@.subrange(0, i + 1 as int);
                assert(p1.drop_last() =~= self.conflicts@.subrange(0, i as int));
                assert(p1.last() == self.conflicts@[i as int]);
            }
            i += 1;
        }
        proof {
            assert(self.conflicts@.subrange(0, self.conflicts@.len() as int) =~= self.conflicts@);
        }
        let ghost c0 = c@;
        let r = crate::sortutil::sort_conflicts_desc(c);
        proof {
            lemma_perm_contains(r@, c0);
            assert forall|k: int| 0 <= k < r@.len() implies conflict_source(
                self.conflicts@,
                machine_id@,
                #[trigger] r@[k],
            ) by {
                assert(r@.contains(r@[k]));
                assert(c0.contains(r@[k]));
                let m = choose|m: int| 0 <= m < c0.len() && c0[m] == r@[k];
                assert(conflict_source(self.conflicts@, machine_id@, c0[m]));
            }
            assert forall|i2: int|
                0 <= i2 < self.conflicts@.len() && #[trigger] self.conflicts@[i2].machine_id@
                    == machine_id@ && !self.conflicts@[i2].resolved implies conflict_covered(
                r@,
                self.conflicts@[i2],
            ) by {
                let k0 = choose|k0: int|
                    0 <= k0 < c0.len() && conflict_like(#[trigger] c0[k0], self.conflicts@[i2]);
                assert(c0.contains(c0[k0]));
                assert(r@.contains(c0[k0]));
                let n = choose|n: int| 0 <= n < r@.len() && r@[n] == c0[k0];
                assert(conflict_like(r@[n], self.conflicts@[i2]));
            }
        }
        r
    }
}


/// The entry copies, by content, a stored entry after the cursor in the group.
pub open spec fn after_source(
    h: Seq<HistoryEntry>,
    after: i64,
    group: Seq<char>,
    e: HistoryEntry,
) -> bool {
    exists|i: int|
        0 <= i < h.len() && history_like(e, #[trigger] h[i]) && h[i].timestamp > after
            && h[i].group_name@ == group
}

impl SyncStore {
    fn entry_matches(
        &self,
        i: usize,
        qchars: &Vec<char>,
        machine_id: Option<&str>,
        session_id: Option<&str>,
        cwd: Option<&str>,
    ) -> (r: bool)
        requires
            i < self.history@.len(),
        ensures
            r == search_matches(
                self.history@[i as int],
                qchars@,
                opt_view(machine_id),
                opt_view(session_id),
                opt_view(cwd),
            ),
    {
        let e = &self.history[i];
        let cmd = chars_of(e.command.as_str());
        if !contains_sub(&cmd, qchars) {
            return false;
        }
        match machine_id {
            Option::Some(m) => {
                if !str_eq(e.machine_id.as_str(), m) {
                    return false;
                }
            },
            Option::None => {},
        }
        match session_id {
            Option::Some(x) => {
                if !str_eq(e.session_id.as_str(), x) {
                    return false;
                }
            },
            Option::None => {},
        }
        match cwd {
            Option::Some(x) => {
                if !str_eq(e.cwd.as_str(), x) {
                    return false;
                }
            },
            Option::None => {},
        }
        true
    }

    /// Searches the shell history: entries whose command holds the query as
    /// a substring, optionally filtered by machine, session, and directory,
    /// newest first, paged by `offset` and `limit` (a negative limit means
    /// no bound). Entries left out of the first page are no newer than any
    /// returned one.
    #[verifier::rlimit(100)]
    #[verifier::spinoff_prover]
    pub fn search_history(
        &self,
        query: &str,
        machine_id: Option<&str>,
        session_id: Option<&str>,
        cwd: Option<&str>,
        limit: i64,
        offset: i64,
    ) -> (r: Vec<HistoryEntry>)
        ensures
            ({
                let q = query@;
                let mid = opt_view(machine_id);
                let sid = opt_view(session_id);
                let cw = opt_view(cwd);
                let n = count_matching(self.history@, q, mid, sid, cw) as int;
                let start = win_start(n, offset as int);
                &&& r@.len() == win_end(n, start, limit as int) - start
                &&& (forall|i: int, j: int|
                    0 <= i < j < r@.len() ==> #[trigger] r@[i].timestamp
                        >= #[trigger] r@[j].timestamp)
                &&& (forall|k: int|
                    0 <= k < r@.len() ==> search_source(
                        self.history@,
                        q,
                        mid,
                        sid,
                        cw,
                        #[trigger] r@[k],
                    ))
                &&& (offset <= 0 ==> (forall|i: int|
                    0 <= i < self.history@.len() && search_matches(
                        #[trigger] self.history@[i],
                        q,
                        mid,
                        sid,
                        cw,
                    ) && !hist_covered(r@, self.history@[i]) ==> (forall|k: int|
                        0 <= k < r@.len() ==> #[trigger] r@[k].timestamp
                            >= self.history@[i].timestamp)))
                &&& (forall|i: int|
                    0 <= i < self.history@.len() && search_matches(
                        #[trigger] self.history@[i],
                        q,
                        mid,
                        sid,
                        cw,
                    ) && !hist_covered(r@, self.history@[i]) ==> ((forall|k: int|
                        0 <= k < r@.len() ==> #[trigger] r@[k].timestamp
                            >= self.history@[i].timestamp) || (forall|k: int|
                        0 <= k < r@.len() ==> #[trigger] r@[k].timestamp
                            <= self.history@[i].timestamp)))
            }),
    {
        let ghost q = query@;
        let ghost mid = opt_view(machine_id);
        let ghost sid = opt_view(session_id);
        let ghost cw = opt_view(cwd);
        let qchars = chars_of(query);
        let mut c: Vec<HistoryEntry> = Vec::new();
        let mut i: usize = 0;
        while i < self.history.len()
            invariant
                qchars@ == q,
                mid == opt_view(machine_id),
                sid == opt_view(session_id),
                cw == opt_view(cwd),
                i <= self.history@.len(),
                c@.len() == count_matching(self.history@.subrange(0, i as int), q, mid, sid, cw),
                forall|k: int|
                    0 <= k < c@.len() ==> search_source(
                        self.history@,
                        q,
                        mid,
                        sid,
                        cw,
                        #[trigger] c@[k],
                    ),
                forall|j: int|
                    0 <= j < i && search_matches(#[trigger] self.history@[j], q, mid, sid, cw)
                        ==> hist_covered(c@, self.history@[j]),
            decreases self.history@.len() - i,
        {
            let ghost c_prev = c@;
            if self.entry_matches(i, &qchars, machine_id, session_id, cwd) {
                c.push(clone_history_entry(&self.history[i]));
                proof {
                    assert(history_like(c@[c@.len() - 1], self.history@[i as int]));
                    assert(search_source(self.history@, q, mid, sid, cw, c@[c@.len() - 1]));
                    assert(hist_covered(c@, self.history@[i as int]));
                    assert forall|j: int|
                        0 <= j < i && search_matches(#[trigger] self.history@[j], q, mid, sid, cw)
                            implies hist_covered(c@, self.history@[j]) by {
                        let k0 = choose|k0: int|
                            0 <= k0 < c_prev.len() && history_like(
                                #[trigger] c_prev[k0],
                                self.history@[j],
                            );
                        assert(c@[k0] == c_prev[k0]);
                        assert(history_like(c@[k0], self.history@[j]));
                    }
                }
            }
            proof {
                let p1 = self.history@.subrange(0, i + 1 as int);
                assert(p1.drop_last() =~= self.history@.subrange(0, i as int));
                assert(p1.last() == self.history@[i as int]);
            }
            i += 1;
        }
        proof {
            assert(self.history@.subrange(0, self.history@.len() as int) =~= self.history@);
        }
        let ghost c0 = c@;
        let srt = crate::sortutil::sort_history(c, false);
        let ghost s0 = srt@;
        let r = window_hist(srt, offset, limit);
        proof {
            lemma_perm_contains(s0, c0);
            let n = count_matching(self.history@, q, mid, sid, cw) as int;
            let start = win_start(n, offset as int);
            let end = win_end(n, start, limit as int);
            assert(r@ =~= s0.subrange(start, end));
            assert forall|k: int| 0 <= k < r@.len() implies search_source(
                self.history@,
                q,
                mid,
                sid,
                cw,
                #[trigger] r@[k],
            ) by {
                assert(r@[k] == s0[start + k]);
                assert(s0.contains(s0[start + k]));
                assert(c0.contains(s0[start + k]));
                let m = choose|m: int| 0 <= m < c0.len() && c0[m] == s0[start + k];
                assert(search_source(self.history@, q, mid, sid, cw, c0[m]));
            }
            assert forall|i2: int|
                0 <= i2 < self.history@.len() && search_matches(
                    #[trigger] self.history@[i2],
                    q,
                    mid,
                    sid,
                    cw,
                ) && !hist_covered(r@, self.history@[i2]) implies ((forall|k: int|
                0 <= k < r@.len() ==> #[trigger] r@[k].timestamp >= self.history@[i2].timestamp)
                || (forall|k: int|
                0 <= k < r@.len() ==> #[trigger] r@[k].timestamp
                    <= self.history@[i2].timestamp)) by {
                assert(hist_covered(c0, self.history@[i2]));
                let k0 = choose|k0: int|
                    0 <= k0 < c0.len() && history_like(#[trigger] c0[k0], self.history@[i2]);
                assert(c0.contains(c0[k0]));
                assert(s0.contains(c0[k0]));
                let w = choose|w: int| 0 <= w < s0.len() && s0[w] == c0[k0];
                if start <= w < end {
                    assert(r@[w - start] == s0[w]);
                    assert(history_like(r@[w - start], self.history@[i2]));
                    assert(hist_covered(r@, self.history@[i2]));
                } else if w < start {
                    assert forall|k: int| 0 <= k < r@.len() implies #[trigger] r@[k].timestamp
                        <= self.history@[i2].timestamp by {
                        assert(crate::sortutil::hist_le(false, s0[w], s0[start + k]));
                        assert(s0[w].timestamp == self.history@[i2].timestamp);
                    }
                } else {
                    assert forall|k: int| 0 <= k < r@.len() implies #[trigger] r@[k].timestamp
                        >= self.history@[i2].timestamp by {
                        assert(crate::sortutil::hist_le(false, s0[start + k], s0[w]));
                        assert(s0[w].timestamp == self.history@[i2].timestamp);
                    }
                }
            }
            if offset <= 0 {
                assert(start == 0);
                assert forall|i2: int|
                    0 <= i2 < self.history@.len() && search_matches(
                        #[trigger] self.history@[i2],
                        q,
                        mid,
                        sid,
                        cw,
                    ) && !hist_covered(r@, self.history@[i2]) implies (forall|k: int|
                    0 <= k < r@.len() ==> #[trigger] r@[k].timestamp
                        >= self.history@[i2].timestamp) by {
                    assert(hist_covered(c0, self.history@[i2]));
                    let k0 = choose|k0: int|
                        0 <= k0 < c0.len() && history_like(#[trigger] c0[k0], self.history@[i2]);
                    assert(c0.contains(c0[k0]));
                    assert(s0.contains(c0[k0]));
                    let w = choose|w: int| 0 <= w < s0.len() && s0[w] == c0[k0];
                    if w < r@.len() {
                        assert(r@[w] == s0[w]);
                        assert(history_like(r@[w], self.history@[i2]));
                        assert(hist_covered(r@, self.history@[i2]));
                    } else {
                        assert forall|k: int| 0 <= k < r@.len() implies #[trigger] r@[k].timestamp
                            >= self.history@[i2].timestamp by {
                            assert(crate::sortutil::hist_le(false, s0[k], s0[w]));
                            assert(s0[w].timestamp == self.history@[i2].timestamp);
                        }
                    }
                }
            }
        }
        r
    }

    /// Copies out the history entries of one group strictly after a cursor
    /// timestamp, oldest first, bounded by `limit` (a negative limit means
    /// no bound). Entries left out are no older than any returned one.
    pub fn get_history_after_timestamp(&self, after: i64, group_name: &str, limit: i64) -> (r:
        Vec<HistoryEntry>)
        ensures
            r@.len() == win_end(
                count_after(self.history@, after, group_name@) as int,
                0,
                limit as int,
            ),
            forall|i: int, j: int|
                0 <= i < j < r@.len() ==> #[trigger] r@[i].timestamp <= #[trigger] r@[j].timestamp,
            forall|k: int|
                0 <= k < r@.len() ==> after_source(self.history@, after, group_name@, #[trigger] r@[k]),
            forall|i: int|
                0 <= i < self.history@.len() && #[trigger] self.history@[i].timestamp > after
                    && self.history@[i].group_name@ == group_name@ && !hist_covered(
                    r@,
                    self.history@[i],
                ) ==> (forall|k: int|
                    0 <= k < r@.len() ==> #[trigger] r@[k].timestamp
                        <= self.history@[i].timestamp),
    {
        let mut c: Vec<HistoryEntry> = Vec::new();
        let mut i: usize = 0;
        while i < self.history.len()
            invariant
                i <= self.history@.len(),
                c@.len() == count_after(
                    self.history@.subrange(0, i as int),
                    after,
                    group_name@,
                ),
                forall|k: int|
                    0 <= k < c@.len() ==> after_source(
                        self.history@,
                        after,
                        group_name@,
                        #[trigger] c@[k],
                    ),
                forall|j: int|
                    0 <= j < i && #[trigger] self.history@[j].timestamp > after
                        && self.history@[j].group_name@ == group_name@ ==> hist_covered(
                        c@,
                        self.history@[j],
                    ),
            decreases self.history@.len() - i,
        {
            let ghost c_prev = c@;
            let hit = self.history[i].timestamp > after && str_eq(
                self.history[i].group_name.as_str(),
                group_name,
            );
            if hit {
                c.push(clone_history_entry(&self.history[i]));
                proof {
                    assert(history_like(c@[c@.len() - 1], self.history@[i as int]));
                    assert(after_source(self.history@, after, group_name@, c@[c@.len() - 1]));
                    assert(hist_covered(c@, self.history@[i as int]));
                    assert forall|j: int|
                        0 <= j < i && #[trigger] self.history@[j].timestamp > after
                            && self.history@[j].group_name@ == group_name@ implies hist_covered(
                        c@,
                        self.history@[j],
                    ) by {
                        let k0 = choose|k0: int|
                            0 <= k0 < c_prev.len() && history_like(
                                #[trigger] c_prev[k0],
                                self.history@[j],
                            );
                        assert(c@[k0] == c_prev[k0]);
                        assert(history_like(c@[k0], self.history@[j]));
                    }
                }
            }
            proof {
                let p1 = self.history@.subrange(0, i + 1 as int);
                assert(p1.drop_last() =~= self.history@.subrange(0, i as int));
                assert(p1.last() == self.history@[i as int]);
            }
            i += 1;
        }
        proof {
            assert(self.history@.subrange(0, self.history@.len() as int) =~= self.history@);
        }
        let ghost c0 = c@;
        let srt = crate::sortutil::sort_history(c, true);
        let ghost s0 = srt@;
        let r = window_hist(srt, 0, limit);
        proof {
            lemma_perm_contains(s0, c0);
            let n = count_after(self.history@, after, group_name@) as int;
            let end = win_end(n, 0, limit as int);
            assert(r@ =~= s0.subrange(0, end));
            assert forall|k: int| 0 <= k < r@.len() implies after_source(
                self.history@,
                after,
                group_name@,
                #[trigger] r@[k],
            ) by {
                assert(r@[k] == s0[k]);
                assert(s0.contains(s0[k]));
                assert(c0.contains(s0[k]));
                let m = choose|m: int| 0 <= m < c0.len() && c0[m] == s0[k];
                assert(after_source(self.history@, after, group_name@, c0[m]));
            }
            assert forall|i2: int|
                0 <= i2 < self.history@.len() && #[trigger] self.history@[i2].timestamp > after
                    && self.history@[i2].group_name@ == group_name@ && !hist_covered(
                    r@,
                    self.history@[i2],
                ) implies (forall|k: int|
                0 <= k < r@.len() ==> #[trigger] r@[k].timestamp
                    <= self.history@[i2].timestamp) by {
                assert(hist_covered(c0, self.history@[i2]));
                let k0 = choose|k0: int|
                    0 <= k0 < c0.len() && history_like(#[trigger] c0[k0], self.history@[i2]);
                assert(c0.contains(c0[k0]));
                assert(s0.contains(c0[k0]));
                let w = choose|w: int| 0 <= w < s0.len() && s0[w] == c0[k0];
                if w < r@.len() {
                    assert(r@[w] == s0[w]);
                    assert(history_like(r@[w], self.history@[i2]));
                    assert(hist_covered(r@, self.history@[i2]));
                } else {
                    assert forall|k: int| 0 <= k < r@.len() implies #[trigger] r@[k].timestamp
                        <= self.history@[i2].timestamp by {
                        assert(crate::sortutil::hist_le(true, s0[k], s0[w]));
                        assert(s0[w].timestamp == self.history@[i2].timestamp);
                    }
                }
            }
        }
        r
    }
}

/// A history id is never stored twice: repeated insertion of an entry with
/// the same id cannot raise its count past one.
pub proof fn lemma_history_id_unique(s: SyncStore, id: Seq<char>)
    requires
        s.wf(),
    ensures
        forall|i: int, j: int|
            0 <= i < s.history@.len() && 0 <= j < s.history@.len() && s.history@[i].id@ == id
                && s.history@[j].id@ == id ==> i == j,
{
}

} // verus!

