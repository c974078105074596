use vstd::prelude::*;

verus! {

/// One queued offline write.
#[derive(Debug, Clone)]
pub enum QueueAction {
    Add { name: String, command: String, group: String },
    Delete { name: String, group: String },
    Sync,
}

/// One row of the offline queue, in sequence order.
#[derive(Debug, Clone)]
pub struct QueueEntry {
    pub seq: i64,
    pub action: QueueAction,
    pub created_at: i64,
}

/// The local durable FIFO of writes attempted while the service was
/// unreachable. Entries drain in sequence order; a failure stops the drain.
pub struct OfflineQueue {
    pub entries: Vec<QueueEntry>,
    pub next_seq: i64,
}

/// Tests whether an HTTP status settles an offline-queue entry: any 2xx,
/// or 409 (the service already holds the write).
pub fn is_drain_success(status: u16) -> (r: bool)
    ensures
        r == spec_drain_success(status),
{
    (200 <= status && status < 300) || status == 409
}

/// The statuses that settle a queued write.
pub open spec fn spec_drain_success(status: u16) -> bool {
    200 <= status < 300 || status == 409
}

/// What remains of a queue after a drain that saw the given status for each
/// attempted entry, in order: entries leave the front while the statuses
/// settle them, and the first failure stops the drain.
pub open spec fn drain_spec(entries: Seq<QueueEntry>, statuses: Seq<u16>) -> Seq<QueueEntry>
    decreases statuses.len(),
{
    if entries.len() == 0 || statuses.len() == 0 {
        entries
    } else if spec_drain_success(statuses[0]) {
        drain_spec(entries.skip(1), statuses.skip(1))
    } else {
        entries
    }
}

impl OfflineQueue {
    /// Sequence numbers increase front to back and stay below the next
    /// free one.
    pub open spec fn wf(self) -> bool {
        &&& forall|i: int, j: int|
            0 <= i < j < self.entries@.len() ==> #[trigger] self.entries@[i].seq
                < #[trigger] self.entries@[j].seq
        &&& forall|i: int|
            0 <= i < self.entries@.len() ==> #[trigger] self.entries@[i].seq < self.next_seq
        &&& 1 <= self.next_seq
    }

    /// An empty queue.
    pub fn new() -> (r: OfflineQueue)
        ensures
            r.wf(),
            r.entries@.len() == 0,
    {
        OfflineQueue { entries: Vec::new(), next_seq: 1 }
    }

    /// Appends one operation for later replay.
    pub fn queue_operation(&mut self, action: QueueAction, now_ms: i64) -> (r: Result<(), ()>)
        requires
            old(self).wf(),
        ensures
            final(self).wf(),
            old(self).next_seq == i64::MAX ==> r is Err && *final(self) == *old(self),
            old(self).next_seq < i64::MAX ==> {
                &&& r is Ok
                &&& final(self).entries@ == old(self).entries@.push(final(self).entries@.last())
                &&& final(self).entries@.last().action == action
                &&& final(self).entries@.last().created_at == now_ms
                &&& final(self).next_seq == old(self).next_seq + 1
            },
    {
        if self.next_seq == i64::MAX {
            return Result::Err(());
        }
        let e = QueueEntry { seq: self.next_seq, action, created_at: now_ms };
        self.entries.push(e);
        self.next_seq = self.next_seq + 1;
        Result::Ok(())
    }

    /// Appends a full-sync request.
    pub fn queue_sync_request(&mut self, now_ms: i64) -> (r: Result<(), ()>)
        requires
            old(self).wf(),
        ensures
            final(self).wf(),
            old(self).next_seq == i64::MAX ==> r is Err && *final(self) == *old(self),
            old(self).next_seq < i64::MAX ==> {
                &&& r is Ok
                &&& final(self).entries@ == old(self).entries@.push(final(self).entries@.last())
                &&& final(self).entries@.last().action is Sync
                &&& final(self).next_seq == old(self).next_seq + 1
            },
    {
        self.queue_operation(QueueAction::Sync, now_ms)
    }

    /// How many operations wait in the queue.
    pub fn pending_count(&self) -> (r: usize)
        ensures
            r == self.entries@.len(),
    {
        self.entries.len()
    }

    /// The next entry to replay, if any.
    pub fn front(&self) -> (r: Option<&QueueEntry>)
        ensures
            match r {
                Option::Some(e) => self.entries@.len() > 0 && *e == self.entries@[0],
                Option::None => self.entries@.len() == 0,
            },
    {
        if self.entries.len() > 0 {
            Option::Some(&self.entries[0])
        } else {
            Option::None
        }
    }

    /// Settles or keeps the front entry after one replay attempt: a 2xx or
    /// 409 status removes it; anything else keeps the whole queue so order
    /// is preserved. Returns whether the entry left the queue.
    pub fn complete_front(&mut self, status: u16) -> (r: bool)
        requires
            old(self).wf(),
            old(self).entries@.len() > 0,
        ensures
            final(self).wf(),
            r == spec_drain_success(status),
            spec_drain_success(status) ==> final(self).entries@ == old(self).entries@.skip(1)
                && final(self).next_seq == old(self).next_seq,
            !spec_drain_success(status) ==> *final(self) == *old(self),
    {
        if is_drain_success(status) {
            self.entries.remove(0);
            proof {
                assert(self.entries@ =~= old(self).entries@.skip(1));
            }
            true
        } else {
            false
        }
    }
}

/// A drain that sees a settling status for every queued entry leaves the
/// queue empty.
pub proof fn lemma_drain_all_success(entries: Seq<QueueEntry>, statuses: Seq<u16>)
    requires
        statuses.len() >= entries.len(),
        forall|k: int| 0 <= k < entries.len() ==> spec_drain_success(#[trigger] statuses[k]),
    ensures
        drain_spec(entries, statuses).len() == 0,
    decreases entries.len(),
{
    if entries.len() > 0 {
        assert(spec_drain_success(statuses[0]));
        lemma_drain_all_success(entries.skip(1), statuses.skip(1));
    }
}

} // verus!
