use vstd::prelude::*;

use crate::models::{
    clone_encrypted_history_entry, clone_history_entry, enc_history_like, clone_strings,
    history_like, strings_like, EncryptedHistoryEntry, HistoryEntry, Machine,
};
use crate::protocol::{
    AuthFailedData, AuthSuccessData, ClientMessage, HistoryPageData, HistorySyncData,
    HistorySyncEncryptedData, KeyRequestData, KeyResponseData, PongData, ServerEvent,
};
use crate::store::{token_taken, SyncStore};
use crate::strutil::{contains_string, spec_contains_str, str_eq};

verus! {

/// The service side of the event channel: which machines currently have a
/// mailbox installed. The mailboxes themselves live with the transport;
/// the hub decides who receives what.
pub struct WsHub {
    pub connected: Vec<String>,
}

/// One outbound delivery: the target machine and the event for it.
pub struct Delivery {
    pub target: String,
    pub event: ServerEvent,
}

/// What handling one inbound frame decided: a reply to the sender, a set
/// of deliveries to other machines, a machine id to bind to the
/// connection, and whether to close it.
pub struct FrameOutcome {
    pub reply: Option<ServerEvent>,
    pub deliveries: Vec<Delivery>,
    pub authenticated: Option<String>,
    pub close: bool,
}

/// Some registered machine carries this machine id and intersects the
/// groups.
pub open spec fn eligible_target(ms: Seq<Machine>, groups: Seq<String>, t: Seq<char>) -> bool {
    exists|i: int|
        0 <= i < ms.len() && #[trigger] ms[i].machine_id@ == t && groups_intersect(
            ms[i].groups@,
            groups,
        )
}

/// Some registered machine carries this machine id and counts the group
/// among its own.
pub open spec fn group_member_target(ms: Seq<Machine>, g: Seq<char>, t: Seq<char>) -> bool {
    exists|i: int|
        0 <= i < ms.len() && #[trigger] ms[i].machine_id@ == t && spec_contains_str(
            ms[i].groups@,
            g,
        )
}

/// The public key the service attaches when relaying a key response from
/// this machine: its stored key, or the empty string when none is stored.
pub open spec fn stored_public_key(ms: Seq<Machine>, mid: Seq<char>) -> Seq<char> {
    if crate::store::machine_id_taken(ms, mid) {
        match ms[crate::store::machine_index(ms, mid)].public_key {
            Option::Some(pk) => pk@,
            Option::None => Seq::<char>::empty(),
        }
    } else {
        Seq::<char>::empty()
    }
}

/// Some machine in the group list intersects the machine's groups.
pub open spec fn groups_intersect(machine_groups: Seq<String>, groups: Seq<String>) -> bool {
    exists|i: int|
        0 <= i < groups.len() && spec_contains_str(machine_groups, #[trigger] groups[i]@)
}

/// Group intersection depends only on the group names' content.
proof fn lemma_intersect_like(m: Seq<String>, a: Seq<String>, b: Seq<String>)
    requires
        strings_like(a, b),
    ensures
        groups_intersect(m, a) == groups_intersect(m, b),
{
    if groups_intersect(m, a) {
        let i = choose|i: int| 0 <= i < a.len() && spec_contains_str(m, #[trigger] a[i]@);
        assert(b[i]@ == a[i]@);
        assert(spec_contains_str(m, b[i]@));
    }
    if groups_intersect(m, b) {
        let i = choose|i: int| 0 <= i < b.len() && spec_contains_str(m, #[trigger] b[i]@);
        assert(a[i]@ == b[i]@);
        assert(spec_contains_str(m, a[i]@));
    }
}

fn machine_in_groups(m: &Machine, groups: &Vec<String>) -> (r: bool)
    ensures
        r == groups_intersect(m.groups@, groups@),
{
    let mut i: usize = 0;
    while i < groups.len()
        invariant
            i <= groups@.len(),
            forall|j: int| 0 <= j < i ==> !spec_contains_str(m.groups@, #[trigger] groups@[j]@),
        decreases groups@.len() - i,
    {
        if contains_string(&m.groups, groups[i].as_str()) {
            return true;
        }
        i += 1;
    }
    false
}

impl WsHub {
    /// Connected machine ids are unique.
    pub open spec fn wf(self) -> bool {
        forall|i: int, j: int|
            0 <= i < j < self.connected@.len() ==> #[trigger] self.connected@[i]@
                != #[trigger] self.connected@[j]@
    }

    /// Whether a machine currently has a mailbox installed.
    pub open spec fn spec_connected(self, mid: Seq<char>) -> bool {
        spec_contains_str(self.connected@, mid)
    }

    /// A hub with no connections.
    pub fn new() -> (r: WsHub)
        ensures
            r.wf(),
            r.connected@.len() == 0,
    {
        WsHub { connected: Vec::new() }
    }

    /// Installs an authenticated machine's mailbox.
    pub fn add_client(&mut self, machine_id: &str)
        requires
            old(self).wf(),
        ensures
            final(self).wf(),
            final(self).spec_connected(machine_id@),
            forall|m: Seq<char>|
                #[trigger] final(self).spec_connected(m) == (old(self).spec_connected(m) || m
                    == machine_id@),
    {
        let ghost prev = self.connected@;
        if !contains_string(&self.connected, machine_id) {
            self.connected.push(String::from_str(machine_id));
            proof {
                assert(self.connected@.last()@ == machine_id@);
                assert(forall|k: int| 0 <= k < prev.len() ==> self.connected@[k] == prev[k]);
                assert forall|m: Seq<char>|
                    #[trigger] self.spec_connected(m) == (spec_contains_str(prev, m) || m
                        == machine_id@) by {
                    if self.spec_connected(m) {
                        let w = choose|w: int|
                            0 <= w < self.connected@.len() && self.connected@[w]@ == m;
                        if w < prev.len() {
                            assert(spec_contains_str(prev, m));
                        }
                    }
                    if spec_contains_str(prev, m) {
                        let w = choose|w: int| 0 <= w < prev.len() && prev[w]@ == m;
                        assert(self.connected@[w]@ == m);
                    }
                    if m == machine_id@ {
                        assert(self.connected@.last()@ == m);
                    }
                }
            }
        }
    }

    /// Removes a machine's mailbox on disconnect.
    pub fn remove_client(&mut self, machine_id: &str)
        requires
            old(self).wf(),
        ensures
            final(self).wf(),
            !final(self).spec_connected(machine_id@),
            forall|m: Seq<char>|
                m != machine_id@ ==> #[trigger] final(self).spec_connected(m) == old(
                    self,
                ).spec_connected(m),
    {
        let mut i: usize = 0;
        while i < self.connected.len()
            invariant
                old(self).wf(),
                *self == *old(self),
                i <= self.connected@.len(),
                forall|j: int| 0 <= j < i ==> #[trigger] self.connected@[j]@ != machine_id@,
            decreases self.connected@.len() - i,
        {
            if str_eq(self.connected[i].as_str(), machine_id) {
                let ghost prev = self.connected@;
                self.connected.remove(i);
                proof {
                    assert forall|m: Seq<char>| m != machine_id@ implies #[trigger] self
                        .spec_connected(m) == spec_contains_str(prev, m) by {
                        if self.spec_connected(m) {
                            let w = choose|w: int|
                                0 <= w < self.connected@.len() && self.connected@[w]@ == m;
                            if w < i {
                                assert(prev[w]@ == m);
                            } else {
                                assert(prev[w + 1]@ == m);
                            }
                        }
                        if spec_contains_str(prev, m) {
                            let w = choose|w: int| 0 <= w < prev.len() && prev[w]@ == m;
                            if w < i {
                                assert(self.connected@[w]@ == m);
                            } else {
                                assert(w != i);
                                assert(self.connected@[w - 1]@ == m);
                            }
                        }
                    }
                    assert forall|j: int|
                        0 <= j < self.connected@.len() implies #[trigger] self.connected@[j]@
                        != machine_id@ by {
                        if j < i {
                            assert(prev[j]@ != machine_id@);
                        } else {
                            assert(self.connected@[j] == prev[j + 1]);
                        }
                    }
                }
                return ;
            }
            i += 1;
        }
    }

    /// How many machines are connected.
    pub fn client_count(&self) -> (r: usize)
        ensures
            r == self.connected@.len(),
    {
        self.connected.len()
    }

    fn is_connected(&self, machine_id: &str) -> (r: bool)
        ensures
            r == self.spec_connected(machine_id@),
    {
        contains_string(&self.connected, machine_id)
    }

    /// The fan-out policy: the machines to deliver an event to, given the
    /// event's groups and the originator to exclude. Every recipient has a
    /// mailbox installed, intersects the groups, and is not the excluded
    /// machine; no machine is named twice; and every registered machine
    /// meeting those terms is reached.
    pub fn fanout_targets(
        &self,
        store: &SyncStore,
        groups: &Vec<String>,
        exclude_machine_id: Option<&str>,
    ) -> (r: Vec<String>)
        ensures
            forall|k: int, l: int| 0 <= k < l < r@.len() ==> #[trigger] r@[k]@ != #[trigger] r@[l]@,
            forall|k: int|
                0 <= k < r@.len() ==> self.spec_connected(#[trigger] r@[k]@),
            forall|k: int|
                0 <= k < r@.len() ==> (match exclude_machine_id {
                    Option::Some(e) => #[trigger] r@[k]@ != e@,
                    Option::None => true,
                }),
            forall|k: int|
                0 <= k < r@.len() ==> eligible_target(store.machines@, groups@, #[trigger] r@[k]@),
            forall|i: int|
                0 <= i < store.machines@.len() && groups_intersect(
                    #[trigger] store.machines@[i].groups@,
                    groups@,
                ) && self.spec_connected(store.machines@[i].machine_id@) && (match
                exclude_machine_id {
                    Option::Some(e) => store.machines@[i].machine_id@ != e@,
                    Option::None => true,
                }) ==> spec_contains_str(r@, store.machines@[i].machine_id@),
    {
        let mut r: Vec<String> = Vec::new();
        let mut i: usize = 0;
        while i < store.machines.len()
            invariant
                i <= store.machines@.len(),
                forall|k: int, l: int|
                    0 <= k < l < r@.len() ==> #[trigger] r@[k]@ != #[trigger] r@[l]@,
                forall|k: int| 0 <= k < r@.len() ==> self.spec_connected(#[trigger] r@[k]@),
                forall|k: int|
                    0 <= k < r@.len() ==> (match exclude_machine_id {
                        Option::Some(e) => #[trigger] r@[k]@ != e@,
                        Option::None => true,
                    }),
                forall|k: int|
                    0 <= k < r@.len() ==> eligible_target(
                        store.machines@,
                        groups@,
                        #[trigger] r@[k]@,
                    ),
                forall|j: int|
                    0 <= j < i && groups_intersect(
                        #[trigger] store.machines@[j].groups@,
                        groups@,
                    ) && self.spec_connected(store.machines@[j].machine_id@) && (match
                    exclude_machine_id {
                        Option::Some(e) => store.machines@[j].machine_id@ != e@,
                        Option::None => true,
                    }) ==> spec_contains_str(r@, store.machines@[j].machine_id@),
            decreases store.machines@.len() - i,
        {
            let m = &store.machines[i];
            let excluded = match exclude_machine_id {
                Option::Some(e) => str_eq(m.machine_id.as_str(), e),
                Option::None => false,
            };
            let ghost r_prev = r@;
            if !excluded && machine_in_groups(m, groups) && self.is_connected(
                m.machine_id.as_str(),
            ) && !contains_string(&r, m.machine_id.as_str()) {
                r.push(m.machine_id.clone());
                proof {
                    assert(r@.last()@ == store.machines@[i as int].machine_id@);
                    assert(forall|k: int| 0 <= k < r_prev.len() ==> r@[k] == r_prev[k]);
                    assert(eligible_target(store.machines@, groups@, r@[r@.len() - 1]@));
                    assert forall|j: int|
                        0 <= j < i + 1 && groups_intersect(
                            #[trigger] store.machines@[j].groups@,
                            groups@,
                        ) && self.spec_connected(store.machines@[j].machine_id@) && (match
                        exclude_machine_id {
                            Option::Some(e) => store.machines@[j].machine_id@ != e@,
                            Option::None => true,
                        }) implies spec_contains_str(r@, store.machines@[j].machine_id@) by {
                        if j < i {
                            let w = choose|w: int|
                                0 <= w < r_prev.len() && r_prev[w]@
                                    == store.machines@[j].machine_id@;
                            assert(r@[w]@ == store.machines@[j].machine_id@);
                        } else {
                            assert(r@[r@.len() - 1]@ == store.machines@[j].machine_id@);
                        }
                    }
                }
            } else {
                proof {
                    if !excluded && groups_intersect(store.machines@[i as int].groups@, groups@)
                        && self.spec_connected(store.machines@[i as int].machine_id@) {
                        assert(spec_contains_str(r@, store.machines@[i as int].machine_id@));
                    }
                }
            }
            i += 1;
        }
        r
    }
}


/// Every delivery in the batch addresses a distinct, connected machine
/// other than the sender, whose groups intersect the sender's; and every
/// connected machine meeting those terms is addressed.
pub open spec fn fanout_ok(
    ds: Seq<Delivery>,
    hub: WsHub,
    ms: Seq<Machine>,
    groups: Seq<String>,
    exclude: Seq<char>,
) -> bool {
    &&& forall|k: int, l: int| 0 <= k < l < ds.len() ==> #[trigger] ds[k].target@ != #[trigger] ds[l].target@
    &&& forall|k: int| 0 <= k < ds.len() ==> hub.spec_connected(#[trigger] ds[k].target@)
    &&& forall|k: int| 0 <= k < ds.len() ==> #[trigger] ds[k].target@ != exclude
    &&& forall|k: int| 0 <= k < ds.len() ==> eligible_target(ms, groups, #[trigger] ds[k].target@)
    &&& forall|i: int|
        0 <= i < ms.len() && groups_intersect(#[trigger] ms[i].groups@, groups)
            && hub.spec_connected(ms[i].machine_id@) && ms[i].machine_id@ != exclude ==> (
        exists|k: int| 0 <= k < ds.len() && #[trigger] ds[k].target@ == ms[i].machine_id@)
}

/// Authenticates one channel connection: a known token installs the
/// machine's mailbox and is answered with its identity and groups; an
/// unknown token is refused and the connection closed.
fn handle_auth(hub: &mut WsHub, store: &mut SyncStore, token: &str, now_ms: i64) -> (r:
    FrameOutcome)
    requires
        old(store).wf(),
        old(hub).wf(),
    ensures
        final(store).wf(),
        final(hub).wf(),
        !token_taken(old(store).machines@, token@) ==> {
            &&& (r.reply matches Option::Some(e) && e is AuthFailed)
            &&& r.close == true
            &&& r.authenticated is None
            &&& r.deliveries@.len() == 0
            &&& *final(hub) == *old(hub)
            &&& *final(store) == *old(store)
        },
        token_taken(old(store).machines@, token@) ==> {
            let m = old(store).machines@[crate::api::token_index(old(store).machines@, token@)];
            &&& (r.authenticated matches Option::Some(a) && a@ == m.machine_id@)
            &&& final(hub).spec_connected(m.machine_id@)
            &&& (forall|x: Seq<char>|
                #[trigger] final(hub).spec_connected(x) == (old(hub).spec_connected(x) || x
                    == m.machine_id@))
            &&& (r.reply matches Option::Some(e) && e matches ServerEvent::AuthSuccess { data }
                && data.machine_id@ == m.machine_id@ && strings_like(data.groups@, m.groups@))
            &&& r.close == false
            &&& r.deliveries@.len() == 0
            &&& crate::api::last_seen_bumped(
                old(store).machines@,
                final(store).machines@,
                m.machine_id@,
                now_ms,
            )
            &&& *final(store) == (SyncStore { machines: final(store).machines, ..*old(store) })
        },
{
    match crate::api::authenticate(store, token, now_ms) {
        Result::Ok((mid, groups)) => {
            hub.add_client(mid.as_str());
            FrameOutcome {
                reply: Option::Some(
                    ServerEvent::AuthSuccess {
                        data: AuthSuccessData { machine_id: mid.clone(), groups },
                    },
                ),
                deliveries: Vec::new(),
                authenticated: Option::Some(mid),
                close: false,
            }
        },
        Result::Err(_) => FrameOutcome {
            reply: Option::Some(
                ServerEvent::AuthFailed {
                    data: AuthFailedData { error: String::from_str("Invalid token") },
                },
            ),
            deliveries: Vec::new(),
            authenticated: Option::None,
            close: true,
        },
    }
}

/// Builds one fan-out delivery list for the sender's groups, excluding the
/// sender, carrying the given per-target events. The targets obey the
/// fan-out policy.
fn batch_targets(hub: &WsHub, store: &SyncStore, mid: &String) -> (r: Vec<String>)
    requires
        store.wf(),
        hub.wf(),
        store.machine_id_present(mid@),
    ensures
        ({
            let groups = store.machines@[crate::store::machine_index(
                store.machines@,
                mid@,
            )].groups@;
            &&& (forall|k: int, l: int|
                0 <= k < l < r@.len() ==> #[trigger] r@[k]@ != #[trigger] r@[l]@)
            &&& (forall|k: int| 0 <= k < r@.len() ==> hub.spec_connected(#[trigger] r@[k]@))
            &&& (forall|k: int| 0 <= k < r@.len() ==> #[trigger] r@[k]@ != mid@)
            &&& (forall|k: int|
                0 <= k < r@.len() ==> eligible_target(store.machines@, groups, #[trigger] r@[k]@))
            &&& (forall|i: int|
                0 <= i < store.machines@.len() && groups_intersect(
                    #[trigger] store.machines@[i].groups@,
                    groups,
                ) && hub.spec_connected(store.machines@[i].machine_id@)
                    && store.machines@[i].machine_id@ != mid@ ==> spec_contains_str(
                    r@,
                    store.machines@[i].machine_id@,
                ))
        }),
{
    let m = match store.get_machine_by_id(mid.as_str()) {
        Option::Some(m) => m,
        Option::None => {
            proof {
                assert(false);
            }
            return Vec::new();
        },
    };
    let groups = clone_strings(&m.groups);
    let ghost mi = crate::store::machine_index(store.machines@, mid@);
    proof {
        assert(0 <= mi < store.machines@.len() && store.machines@[mi].machine_id@ == mid@);
        let w = choose|w: int|
            0 <= w < store.machines@.len() && *m == #[trigger] store.machines@[w] && m.machine_id@
                == mid@;
        assert(w == mi);
        assert(strings_like(groups@, store.machines@[mi].groups@));
    }
    let targets = hub.fanout_targets(store, &groups, Option::Some(mid.as_str()));
    proof {
        let orig = store.machines@[mi].groups@;
        assert forall|k: int| 0 <= k < targets@.len() implies eligible_target(
            store.machines@,
            orig,
            #[trigger] targets@[k]@,
        ) by {
            assert(eligible_target(store.machines@, groups@, targets@[k]@));
            let i = choose|i: int|
                0 <= i < store.machines@.len() && #[trigger] store.machines@[i].machine_id@
                    == targets@[k]@ && groups_intersect(store.machines@[i].groups@, groups@);
            lemma_intersect_like(store.machines@[i].groups@, groups@, orig);
            assert(groups_intersect(store.machines@[i].groups@, orig));
        }
        assert forall|i: int|
            0 <= i < store.machines@.len() && groups_intersect(
                #[trigger] store.machines@[i].groups@,
                orig,
            ) && hub.spec_connected(store.machines@[i].machine_id@)
                && store.machines@[i].machine_id@ != mid@ implies spec_contains_str(
            targets@,
            store.machines@[i].machine_id@,
        ) by {
            lemma_intersect_like(store.machines@[i].groups@, groups@, orig);
            assert(groups_intersect(store.machines@[i].groups@, groups@));
        }
    }
    targets
}

/// Handles a plaintext history batch: the entries are stored idempotently
/// and fanned out to the sender's groups, excluding the sender.
fn handle_history_batch(
    hub: &mut WsHub,
    store: &mut SyncStore,
    conn_machine: Option<&String>,
    entries: &Vec<HistoryEntry>,
) -> (r: FrameOutcome)
    requires
        old(store).wf(),
        old(hub).wf(),
    ensures
        final(store).wf(),
        final(hub).wf(),
        *final(hub) == *old(hub),
        r.reply is None,
        r.authenticated is None,
        r.close == false,
        conn_machine is None ==> *final(store) == *old(store) && r.deliveries@.len() == 0,
        conn_machine matches Option::Some(mid) ==> {
            &&& (forall|j: int|
                0 <= j < entries@.len() ==> crate::store::history_id_taken(
                    final(store).history@,
                    #[trigger] entries@[j].id@,
                ))
            &&& *final(store) == (SyncStore { history: final(store).history, ..*old(store) })
            &&& (forall|k: int|
                0 <= k < r.deliveries@.len() ==> (#[trigger] r.deliveries@[k].event
                    matches ServerEvent::HistorySync { data } && data.source_machine_id@ == mid@
                    && data.entries@.len() == entries@.len() && (forall|j: int|
                    0 <= j < entries@.len() ==> history_like(
                        #[trigger] data.entries@[j],
                        entries@[j],
                    ))))
            &&& (old(store).machine_id_present(mid@) ==> fanout_ok(
                r.deliveries@,
                *old(hub),
                old(store).machines@,
                old(store).machines@[crate::store::machine_index(
                    old(store).machines@,
                    mid@,
                )].groups@,
                mid@,
            ))
        },
{
    let mid = match conn_machine {
        Option::None => {
            return FrameOutcome {
                reply: Option::None,
                deliveries: Vec::new(),
                authenticated: Option::None,
                close: false,
            };
        },
        Option::Some(mid) => mid,
    };
    store.insert_history_batch(entries);
    let mut ds: Vec<Delivery> = Vec::new();
    if store.machine_id_exec(mid.as_str()) {
        let targets = batch_targets(hub, store, mid);
        let ghost store_snap = *store;
        let ghost hub_snap = *hub;
        let mut k: usize = 0;
        while k < targets.len()
            invariant
                *store == store_snap,
                *hub == hub_snap,
                k <= targets@.len(),
                ds@.len() == k,
                forall|x: int| 0 <= x < k ==> #[trigger] ds@[x].target@ == targets@[x]@,
                forall|x: int|
                    0 <= x < k ==> (#[trigger] ds@[x].event matches ServerEvent::HistorySync {
                        data,
                    } && data.source_machine_id@ == mid@ && data.entries@.len()
                        == entries@.len() && (forall|j: int|
                        0 <= j < entries@.len() ==> history_like(
                            #[trigger] data.entries@[j],
                            entries@[j],
                        ))),
            decreases targets@.len() - k,
        {
            let mut copy: Vec<HistoryEntry> = Vec::new();
            let mut j: usize = 0;
            while j < entries.len()
                invariant
                    j <= entries@.len(),
                    copy@.len() == j,
                    forall|x: int|
                        0 <= x < j ==> history_like(#[trigger] copy@[x], entries@[x]),
                decreases entries@.len() - j,
            {
                copy.push(clone_history_entry(&entries[j]));
                j += 1;
            }
            ds.push(
                Delivery {
                    target: targets[k].clone(),
                    event: ServerEvent::HistorySync {
                        data: HistorySyncData { entries: copy, source_machine_id: mid.clone() },
                    },
                },
            );
            k += 1;
        }
        proof {
            let groups = old(store).machines@[crate::store::machine_index(
                old(store).machines@,
                mid@,
            )].groups@;
            assert forall|i: int|
                0 <= i < old(store).machines@.len() && groups_intersect(
                    #[trigger] old(store).machines@[i].groups@,
                    groups,
                ) && old(hub).spec_connected(old(store).machines@[i].machine_id@) && old(
                store,
            ).machines@[i].machine_id@ != mid@ implies (exists|k2: int|
                0 <= k2 < ds@.len() && #[trigger] ds@[k2].target@ == old(
                    store,
                ).machines@[i].machine_id@) by {
                assert(spec_contains_str(targets@, old(store).machines@[i].machine_id@));
                let w = choose|w: int|
                    0 <= w < targets@.len() && targets@[w]@ == old(
                        store,
                    ).machines@[i].machine_id@;
                assert(ds@[w].target@ == old(store).machines@[i].machine_id@);
            }
        }
    }
    FrameOutcome { reply: Option::None, deliveries: ds, authenticated: Option::None, close: false }
}

/// Handles an encrypted history batch: the service cannot read the
/// ciphertext, so nothing is stored; the batch is fanned out to the
/// sender's groups, excluding the sender.
fn handle_history_batch_encrypted(
    hub: &mut WsHub,
    store: &mut SyncStore,
    conn_machine: Option<&String>,
    entries: &Vec<EncryptedHistoryEntry>,
) -> (r: FrameOutcome)
    requires
        old(store).wf(),
        old(hub).wf(),
    ensures
        final(store).wf(),
        final(hub).wf(),
        *final(hub) == *old(hub),
        *final(store) == *old(store),
        r.reply is None,
        r.authenticated is None,
        r.close == false,
        conn_machine is None ==> r.deliveries@.len() == 0,
        conn_machine matches Option::Some(mid) ==> {
            &&& (forall|k: int|
                0 <= k < r.deliveries@.len() ==> (#[trigger] r.deliveries@[k].event
                    matches ServerEvent::HistorySyncEncrypted { data } && data.source_machine_id@
                    == mid@ && data.entries@.len() == entries@.len() && (forall|j: int|
                    0 <= j < entries@.len() ==> enc_history_like(
                        #[trigger] data.entries@[j],
                        entries@[j],
                    ))))
            &&& (old(store).machine_id_present(mid@) ==> fanout_ok(
                r.deliveries@,
                *old(hub),
                old(store).machines@,
                old(store).machines@[crate::store::machine_index(
                    old(store).machines@,
                    mid@,
                )].groups@,
                mid@,
            ))
        },
{
    let mid = match conn_machine {
        Option::None => {
            return FrameOutcome {
                reply: Option::None,
                deliveries: Vec::new(),
                authenticated: Option::None,
                close: false,
            };
        },
        Option::Some(mid) => mid,
    };
    let mut ds: Vec<Delivery> = Vec::new();
    if store.machine_id_exec(mid.as_str()) {
        let targets = batch_targets(hub, store, mid);
        let ghost store_snap = *store;
        let ghost hub_snap = *hub;
        let mut k: usize = 0;
        while k < targets.len()
            invariant
                *store == store_snap,
                *hub == hub_snap,
                k <= targets@.len(),
                ds@.len() == k,
                forall|x: int| 0 <= x < k ==> #[trigger] ds@[x].target@ == targets@[x]@,
                forall|x: int|
                    0 <= x < k ==> (#[trigger] ds@[x].event
                        matches ServerEvent::HistorySyncEncrypted { data }
                        && data.source_machine_id@ == mid@ && data.entries@.len()
                        == entries@.len() && (forall|j: int|
                        0 <= j < entries@.len() ==> enc_history_like(
                            #[trigger] data.entries@[j],
                            entries@[j],
                        ))),
            decreases targets@.len() - k,
        {
            let mut copy: Vec<EncryptedHistoryEntry> = Vec::new();
            let mut j: usize = 0;
            while j < entries.len()
                invariant
                    j <= entries@.len(),
                    copy@.len() == j,
                    forall|x: int|
                        0 <= x < j ==> enc_history_like(#[trigger] copy@[x], entries@[x]),
                decreases entries@.len() - j,
            {
                copy.push(clone_encrypted_history_entry(&entries[j]));
                j += 1;
            }
            ds.push(
                Delivery {
                    target: targets[k].clone(),
                    event: ServerEvent::HistorySyncEncrypted {
                        data: HistorySyncEncryptedData {
                            entries: copy,
                            source_machine_id: mid.clone(),
                        },
                    },
                },
            );
            k += 1;
        }
        proof {
            let groups = old(store).machines@[crate::store::machine_index(
                old(store).machines@,
                mid@,
            )].groups@;
            assert forall|i: int|
                0 <= i < old(store).machines@.len() && groups_intersect(
                    #[trigger] old(store).machines@[i].groups@,
                    groups,
                ) && old(hub).spec_connected(old(store).machines@[i].machine_id@) && old(
                store,
            ).machines@[i].machine_id@ != mid@ implies (exists|k2: int|
                0 <= k2 < ds@.len() && #[trigger] ds@[k2].target@ == old(
                    store,
                ).machines@[i].machine_id@) by {
                assert(spec_contains_str(targets@, old(store).machines@[i].machine_id@));
                let w = choose|w: int|
                    0 <= w < targets@.len() && targets@[w]@ == old(
                        store,
                    ).machines@[i].machine_id@;
                assert(ds@[w].target@ == old(store).machines@[i].machine_id@);
            }
        }
    }
    FrameOutcome { reply: Option::None, deliveries: ds, authenticated: Option::None, close: false }
}

/// Handles one inbound frame of the event channel: authentication, ping,
/// history ingest with group fan-out, history paging, and key-exchange
/// relay. Returns the reply, the deliveries to other machines, the machine
/// id newly bound to this connection, and whether to close it.
#[verifier::rlimit(100)]
#[verifier::spinoff_prover]
pub fn handle_client_frame(
    hub: &mut WsHub,
    store: &mut SyncStore,
    conn_machine: Option<&String>,
    msg: &ClientMessage,
    now_ms: i64,
) -> (r: FrameOutcome)
    requires
        old(store).wf(),
        old(hub).wf(),
    ensures
        final(store).wf(),
        final(hub).wf(),
        (match msg {
            ClientMessage::Auth { token } => {
                &&& (!token_taken(old(store).machines@, token@) ==> {
                    &&& (r.reply matches Option::Some(e) && e is AuthFailed)
                    &&& r.close == true
                    &&& r.authenticated is None
                    &&& r.deliveries@.len() == 0
                    &&& *final(hub) == *old(hub)
                    &&& *final(store) == *old(store)
                })
                &&& (token_taken(old(store).machines@, token@) ==> {
                    let m = old(store).machines@[crate::api::token_index(
                        old(store).machines@,
                        token@,
                    )];
                    &&& (r.authenticated matches Option::Some(a) && a@ == m.machine_id@)
                    &&& final(hub).spec_connected(m.machine_id@)
                    &&& (forall|x: Seq<char>|
                        #[trigger] final(hub).spec_connected(x) == (old(hub).spec_connected(x)
                            || x == m.machine_id@))
                    &&& (r.reply matches Option::Some(e) && e matches ServerEvent::AuthSuccess {
                        data,
                    } && data.machine_id@ == m.machine_id@ && strings_like(
                        data.groups@,
                        m.groups@,
                    ))
                    &&& r.close == false
                    &&& r.deliveries@.len() == 0
                    &&& crate::api::last_seen_bumped(
                        old(store).machines@,
                        final(store).machines@,
                        m.machine_id@,
                        now_ms,
                    )
                    &&& *final(store) == (SyncStore {
                        machines: final(store).machines,
                        ..*old(store)
                    })
                })
            },
            ClientMessage::Ping => {
                &&& (r.reply matches Option::Some(e) && e matches ServerEvent::Pong { data }
                    && data.timestamp == now_ms)
                &&& r.close == false
                &&& r.deliveries@.len() == 0
                &&& *final(store) == *old(store)
                &&& *final(hub) == *old(hub)
            },
            ClientMessage::HistoryBatch { entries } => {
                &&& *final(hub) == *old(hub)
                &&& (conn_machine is None ==> *final(store) == *old(store) && r.deliveries@.len()
                    == 0)
                &&& (conn_machine matches Option::Some(mid) ==> {
                    &&& (forall|j: int|
                        0 <= j < entries@.len() ==> crate::store::history_id_taken(
                            final(store).history@,
                            #[trigger] entries@[j].id@,
                        ))
                    &&& *final(store) == (SyncStore {
                        history: final(store).history,
                        ..*old(store)
                    })
                    &&& (forall|k: int|
                        0 <= k < r.deliveries@.len()
                            ==> (#[trigger] r.deliveries@[k].event
                            matches ServerEvent::HistorySync { data }
                            && data.source_machine_id@ == mid@ && data.entries@.len()
                            == entries@.len() && (forall|j: int|
                            0 <= j < entries@.len() ==> history_like(
                                #[trigger] data.entries@[j],
                                entries@[j],
                            ))))
                    &&& (old(store).machine_id_present(mid@) ==> fanout_ok(
                        r.deliveries@,
                        *old(hub),
                        old(store).machines@,
                        old(store).machines@[crate::store::machine_index(
                            old(store).machines@,
                            mid@,
                        )].groups@,
                        mid@,
                    ))
                })
            },
            ClientMessage::HistoryBatchEncrypted { entries } => {
                &&& *final(hub) == *old(hub)
                &&& *final(store) == *old(store)
                &&& (conn_machine is None ==> r.deliveries@.len() == 0)
                &&& (conn_machine matches Option::Some(mid) ==> {
                    &&& (forall|k: int|
                        0 <= k < r.deliveries@.len()
                            ==> (#[trigger] r.deliveries@[k].event
                            matches ServerEvent::HistorySyncEncrypted { data }
                            && data.source_machine_id@ == mid@ && data.entries@.len()
                            == entries@.len() && (forall|j: int|
                            0 <= j < entries@.len() ==> enc_history_like(
                                #[trigger] data.entries@[j],
                                entries@[j],
                            ))))
                    &&& (old(store).machine_id_present(mid@) ==> fanout_ok(
                        r.deliveries@,
                        *old(hub),
                        old(store).machines@,
                        old(store).machines@[crate::store::machine_index(
                            old(store).machines@,
                            mid@,
                        )].groups@,
                        mid@,
                    ))
                })
            },
            ClientMessage::HistoryQuery { after_timestamp, group_name, limit } => {
                &&& *final(hub) == *old(hub)
                &&& *final(store) == *old(store)
                &&& r.deliveries@.len() == 0
                &&& (conn_machine is None ==> r.reply is None)
                &&& (conn_machine is Some ==> {
                    let lim = if *limit > 1000 {
                        1000int
                    } else {
                        *limit as int
                    };
                    &&& (r.reply matches Option::Some(e) && e
                        matches ServerEvent::HistoryPage { data } && {
                        &&& data.entries@.len() == crate::store::win_end(
                            crate::store::count_after(
                                old(store).history@,
                                *after_timestamp,
                                group_name@,
                            ) as int,
                            0,
                            lim,
                        )
                        &&& data.has_more == (data.entries@.len() as int == lim)
                        &&& (forall|k: int|
                            0 <= k < data.entries@.len() ==> crate::store::after_source(
                                old(store).history@,
                                *after_timestamp,
                                group_name@,
                                #[trigger] data.entries@[k],
                            ))
                    })
                })
            },
            ClientMessage::KeyRequest { group_name, public_key } => {
                &&& *final(hub) == *old(hub)
                &&& *final(store) == *old(store)
                &&& r.reply is None
                &&& (conn_machine is None ==> r.deliveries@.len() == 0)
                &&& (conn_machine matches Option::Some(mid) ==> {
                    &&& (forall|k: int|
                        0 <= k < r.deliveries@.len()
                            ==> (#[trigger] r.deliveries@[k].event
                            matches ServerEvent::KeyRequestEvent { data } && data.group_name@
                            == group_name@ && data.requester_machine_id@ == mid@
                            && data.public_key@ == public_key@))
                    &&& ((group_name@.len() == 0 || public_key@.len() == 0 || !old(
                        store,
                    ).machine_id_present(mid@)) ==> r.deliveries@.len() == 0)
                    &&& ((group_name@.len() > 0 && public_key@.len() > 0 && old(
                        store,
                    ).machine_id_present(mid@)) ==> {
                        let sender = old(store).machines@[crate::store::machine_index(
                            old(store).machines@,
                            mid@,
                        )];
                        &&& (!spec_contains_str(sender.groups@, group_name@)
                            ==> r.deliveries@.len() == 0)
                        &&& (spec_contains_str(sender.groups@, group_name@) ==> (forall|i: int|
                            0 <= i < old(store).machines@.len() && spec_contains_str(
                                #[trigger] old(store).machines@[i].groups@,
                                group_name@,
                            ) && old(hub).spec_connected(old(store).machines@[i].machine_id@)
                                && old(store).machines@[i].machine_id@ != mid@ ==> (exists|k: int|
                                0 <= k < r.deliveries@.len()
                                    && #[trigger] r.deliveries@[k].target@ == old(
                                    store,
                                ).machines@[i].machine_id@)))
                        &&& (forall|k: int|
                            0 <= k < r.deliveries@.len() ==> old(hub).spec_connected(
                                #[trigger] r.deliveries@[k].target@,
                            ) && r.deliveries@[k].target@ != mid@)
                        &&& (forall|k: int|
                            0 <= k < r.deliveries@.len() ==> group_member_target(
                                old(store).machines@,
                                group_name@,
                                #[trigger] r.deliveries@[k].target@,
                            ))
                        &&& (forall|k: int, l: int|
                            0 <= k < l < r.deliveries@.len()
                                ==> #[trigger] r.deliveries@[k].target@
                                != #[trigger] r.deliveries@[l].target@)
                    })
                })
            },
            ClientMessage::KeyResponse { group_name, target_machine_id, wrapped_key } => {
                &&& *final(hub) == *old(hub)
                &&& *final(store) == *old(store)
                &&& r.reply is None
                &&& (conn_machine is None ==> r.deliveries@.len() == 0)
                &&& (conn_machine matches Option::Some(mid) ==> {
                    &&& ((target_machine_id@.len() == 0 || wrapped_key@.len() == 0 || !old(
                        hub,
                    ).spec_connected(target_machine_id@)) ==> r.deliveries@.len() == 0)
                    &&& ((target_machine_id@.len() > 0 && wrapped_key@.len() > 0 && old(
                        hub,
                    ).spec_connected(target_machine_id@)) ==> {
                        &&& r.deliveries@.len() == 1
                        &&& r.deliveries@[0].target@ == target_machine_id@
                        &&& (r.deliveries@[0].event matches ServerEvent::KeyResponseEvent { data }
                            && data.group_name@ == group_name@ && data.wrapped_key@
                            == wrapped_key@ && data.sender_public_key@ == stored_public_key(
                            old(store).machines@,
                            mid@,
                        ))
                    })
                })
            },
        }),
{
    match msg {
        ClientMessage::Auth { token } => handle_auth(hub, store, token.as_str(), now_ms),
        ClientMessage::Ping => FrameOutcome {
            reply: Option::Some(ServerEvent::Pong { data: PongData { timestamp: now_ms } }),
            deliveries: Vec::new(),
            authenticated: Option::None,
            close: false,
        },
        ClientMessage::HistoryBatch { entries } => handle_history_batch(
            hub,
            store,
            conn_machine,
            entries,
        ),
        ClientMessage::HistoryBatchEncrypted { entries } => handle_history_batch_encrypted(
            hub,
            store,
            conn_machine,
            entries,
        ),
        ClientMessage::HistoryQuery { after_timestamp, group_name, limit } => {
            match conn_machine {
                Option::None => FrameOutcome {
                    reply: Option::None,
                    deliveries: Vec::new(),
                    authenticated: Option::None,
                    close: false,
                },
                Option::Some(_) => {
                    let lim: i64 = if *limit > 1000 {
                        1000
                    } else {
                        *limit
                    };
                    let entries = store.get_history_after_timestamp(
                        *after_timestamp,
                        group_name.as_str(),
                        lim,
                    );
                    let has_more = if lim >= 0 {
                        (entries.len() as u64) == (lim as u64)
                    } else {
                        false
                    };
                    FrameOutcome {
                        reply: Option::Some(
                            ServerEvent::HistoryPage {
                                data: HistoryPageData { entries, has_more },
                            },
                        ),
                        deliveries: Vec::new(),
                        authenticated: Option::None,
                        close: false,
                    }
                },
            }
        },
        ClientMessage::KeyRequest { group_name, public_key } => {
            let mut out = FrameOutcome {
                reply: Option::None,
                deliveries: Vec::new(),
                authenticated: Option::None,
                close: false,
            };
            match conn_machine {
                Option::None => out,
                Option::Some(mid) => {
                    if group_name.as_str().is_empty() || public_key.as_str().is_empty() {
                        return out;
                    }
                    match store.get_machine_by_id(mid.as_str()) {
                        Option::None => out,
                        Option::Some(sender) => {
                            if !contains_string(&sender.groups, group_name.as_str()) {
                                return out;
                            }
                            let mut one_group: Vec<String> = Vec::new();
                            one_group.push(group_name.clone());
                            let targets = hub.fanout_targets(
                                store,
                                &one_group,
                                Option::Some(mid.as_str()),
                            );
                            let mut ds: Vec<Delivery> = Vec::new();
                            let mut k: usize = 0;
                            while k < targets.len()
                                invariant
                                    k <= targets@.len(),
                                    ds@.len() == k,
                                    forall|x: int|
                                        0 <= x < k ==> #[trigger] ds@[x].target@ == targets@[x]@,
                                    forall|x: int|
                                        0 <= x < k
                                            ==> (#[trigger] ds@[x].event
                                            matches ServerEvent::KeyRequestEvent { data }
                                            && data.group_name@ == group_name@
                                            && data.requester_machine_id@ == mid@
                                            && data.public_key@ == public_key@),
                                decreases targets@.len() - k,
                            {
                                ds.push(
                                    Delivery {
                                        target: targets[k].clone(),
                                        event: ServerEvent::KeyRequestEvent {
                                            data: KeyRequestData {
                                                group_name: group_name.clone(),
                                                requester_machine_id: mid.clone(),
                                                public_key: public_key.clone(),
                                            },
                                        },
                                    },
                                );
                                k += 1;
                            }
                            proof {
                                assert(one_group@[0]@ == group_name@);
                                assert forall|k2: int|
                                    0 <= k2 < ds@.len() implies group_member_target(
                                    store.machines@,
                                    group_name@,
                                    #[trigger] ds@[k2].target@,
                                ) by {
                                    assert(eligible_target(
                                        store.machines@,
                                        one_group@,
                                        targets@[k2]@,
                                    ));
                                    let i = choose|i: int|
                                        0 <= i < store.machines@.len()
                                            && #[trigger] store.machines@[i].machine_id@
                                            == targets@[k2]@ && groups_intersect(
                                            store.machines@[i].groups@,
                                            one_group@,
                                        );
                                    let j = choose|j: int|
                                        0 <= j < one_group@.len() && spec_contains_str(
                                            store.machines@[i].groups@,
                                            #[trigger] one_group@[j]@,
                                        );
                                    assert(j == 0);
                                    assert(spec_contains_str(
                                        store.machines@[i].groups@,
                                        group_name@,
                                    ));
                                }
                                assert forall|i: int|
                                    0 <= i < store.machines@.len() && spec_contains_str(
                                        #[trigger] store.machines@[i].groups@,
                                        group_name@,
                                    ) && hub.spec_connected(store.machines@[i].machine_id@)
                                        && store.machines@[i].machine_id@ != mid@ implies (
                                exists|k2: int|
                                    0 <= k2 < ds@.len() && #[trigger] ds@[k2].target@
                                        == store.machines@[i].machine_id@) by {
                                    assert(spec_contains_str(
                                        store.machines@[i].groups@,
                                        one_group@[0]@,
                                    ));
                                    assert(groups_intersect(
                                        store.machines@[i].groups@,
                                        one_group@,
                                    ));
                                    assert(spec_contains_str(
                                        targets@,
                                        store.machines@[i].machine_id@,
                                    ));
                                    let w = choose|w: int|
                                        0 <= w < targets@.len() && targets@[w]@
                                            == store.machines@[i].machine_id@;
                                    assert(ds@[w].target@ == store.machines@[i].machine_id@);
                                }
                            }
                            out.deliveries = ds;
                            out
                        },
                    }
                },
            }
        },
        ClientMessage::KeyResponse { group_name, target_machine_id, wrapped_key } => {
            let mut out = FrameOutcome {
                reply: Option::None,
                deliveries: Vec::new(),
                authenticated: Option::None,
                close: false,
            };
            match conn_machine {
                Option::None => out,
                Option::Some(mid) => {
                    if target_machine_id.as_str().is_empty() || wrapped_key.as_str().is_empty() {
                        return out;
                    }
                    if !hub.is_connected(target_machine_id.as_str()) {
                        return out;
                    }
                    let sender_public_key: String = match store.get_machine_by_id(mid.as_str()) {
                        Option::Some(sender) => match &sender.public_key {
                            Option::Some(pk) => pk.clone(),
                            Option::None => String::new(),
                        },
                        Option::None => String::new(),
                    };
                    proof {
                        if crate::store::machine_id_taken(store.machines@, mid@) {
                            let i = crate::store::machine_index(store.machines@, mid@);
                            assert(0 <= i < store.machines@.len()
                                && store.machines@[i].machine_id@ == mid@);
                            let w = choose|w: int|
                                0 <= w < store.machines@.len() && #[trigger] store.machines@[w]
                                    == store.machines@[w] && store.machines@[w].machine_id@
                                    == mid@ && w == i;
                            assert(sender_public_key@ == stored_public_key(store.machines@, mid@));
                        } else {
                            assert(sender_public_key@ =~= Seq::<char>::empty());
                        }
                    }
                    let mut ds: Vec<Delivery> = Vec::new();
                    ds.push(
                        Delivery {
                            target: String::from_str(target_machine_id.as_str()),
                            event: ServerEvent::KeyResponseEvent {
                                data: KeyResponseData {
                                    group_name: group_name.clone(),
                                    wrapped_key: wrapped_key.clone(),
                                    sender_public_key,
                                },
                            },
                        },
                    );
                    out.deliveries = ds;
                    out
                },
            }
        },
    }
}


} // verus!
