//! The batch engine: operations are queued into the ring, submitted in
//! batches, and each completion is routed by the kind of its operation.

use crate::entry::{Errno, FileType, Stat};
use crate::policy::{
    filtered_verdict, kind_verdict, length_verdict, on_file_type, on_filtered_metadata, on_length,
    Verdict,
};
use crate::ring::{
    all_occupied, is_lowest_free, occupancy, valid_capacity, OpKind, OperationRing,
    PendingOperation, MAX_SLOTS,
};
use vstd::prelude::*;

verus! {

/// The number that stands for `kind` in a tag.
pub open spec fn kind_bit(kind: OpKind) -> int {
    match kind {
        OpKind::Stat => 0,
        OpKind::OpenDir => 1,
    }
}

/// The tag that a completion carries for the operation of `kind` in `slot`:
/// twice the slot, plus one for a directory open.
pub open spec fn tag_of(slot: int, kind: OpKind) -> int {
    2 * slot + kind_bit(kind)
}

/// The slot and kind that `tag` stands for, if it stands for any.
pub open spec fn untag(tag: u64) -> Option<(usize, OpKind)> {
    if tag < 128 {
        Some(
            (
                (tag / 2) as usize,
                if tag % 2 == 0 {
                    OpKind::Stat
                } else {
                    OpKind::OpenDir
                },
            ),
        )
    } else {
        None
    }
}

/// Every slot and kind has a tag of its own, and the tag gives both back.
pub proof fn lemma_tag_round_trip(slot: usize, kind: OpKind)
    requires
        slot < 64,
    ensures
        0 <= tag_of(slot as int, kind) < 128,
        untag(tag_of(slot as int, kind) as u64) == Some((slot, kind)),
{
}

/// Two operations share a tag only if they share slot and kind: a failed
/// open is never taken for a failed lookup.
pub proof fn lemma_tags_distinct(slot_a: usize, kind_a: OpKind, slot_b: usize, kind_b: OpKind)
    requires
        tag_of(slot_a as int, kind_a) == tag_of(slot_b as int, kind_b),
    ensures
        slot_a == slot_b,
        kind_a == kind_b,
{
}

/// Computes [`tag_of`].
pub fn encode_tag(slot: usize, kind: OpKind) -> (tag: u64)
    requires
        slot < MAX_SLOTS,
    ensures
        tag == tag_of(slot as int, kind),
        untag(tag) == Some((slot, kind)),
{
    let base: u64 = 2 * (slot as u64);
    match kind {
        OpKind::Stat => base,
        OpKind::OpenDir => base + 1,
    }
}

/// Computes [`untag`].
pub fn decode_tag(tag: u64) -> (decoded: Option<(usize, OpKind)>)
    ensures
        decoded == untag(tag),
        decoded matches Some((slot, kind)) ==> slot < 64 && tag == tag_of(slot as int, kind),
{
    if tag < 128 {
        let slot = (tag / 2) as usize;
        if tag % 2 == 0 {
            Some((slot, OpKind::Stat))
        } else {
            Some((slot, OpKind::OpenDir))
        }
    } else {
        None
    }
}

/// What is to be done with an entry that the enumeration has yielded.
#[derive(Clone, Copy, Debug, PartialEq, Eq, Structural)]
pub enum Plan {
    /// Queue an operation of this kind for the entry.
    Enqueue(OpKind),
    /// Report this error for the entry; nothing is queued.
    Report(Errno),
    /// The entry is a link or a special file: nothing is queued for it.
    Skip,
}

/// The plan for an entry of the listed kind: under the one-file-system
/// filter every entry is looked up; without it a directory is opened, a
/// regular file is looked up, a link or a special file is left out, and a
/// kind that could not be had is reported.
pub open spec fn plan_for(file_type: Result<FileType, Errno>, expect_dev: Option<u64>) -> Plan {
    if expect_dev is Some {
        Plan::Enqueue(OpKind::Stat)
    } else {
        match kind_verdict(file_type) {
            Verdict::Report(e) => Plan::Report(e),
            Verdict::Descend => Plan::Enqueue(OpKind::OpenDir),
            Verdict::NeedMetadata => Plan::Enqueue(OpKind::Stat),
            _ => Plan::Skip,
        }
    }
}

/// Computes [`plan_for`].
pub fn plan_entry(file_type: Result<FileType, Errno>, expect_dev: Option<u64>) -> (plan: Plan)
    ensures
        plan == plan_for(file_type, expect_dev),
{
    match expect_dev {
        Some(_) => Plan::Enqueue(OpKind::Stat),
        None => match on_file_type(file_type) {
            Verdict::Report(e) => Plan::Report(e),
            Verdict::Descend => Plan::Enqueue(OpKind::OpenDir),
            Verdict::NeedMetadata => Plan::Enqueue(OpKind::Stat),
            _ => Plan::Skip,
        },
    }
}

/// What the file system answered to an operation.
#[derive(Clone, Copy, Debug, PartialEq, Eq)]
pub enum Completion {
    /// The answer to a metadata lookup.
    Stat(Result<Stat, Errno>),
    /// The answer to a directory open: the new handle, or the error.
    Opened(Result<u64, Errno>),
}

/// Where a completion goes.
#[derive(Clone, Copy, Debug, PartialEq, Eq, Structural)]
pub enum Route {
    /// Into the histogram, as a file of this size.
    Record(u64),
    /// Nowhere: the entry is left out.
    Skip,
    /// To the scheduler, as a new task for the directory behind this handle.
    Spawn(u64),
    /// Back into the ring: the lookup found a directory, which is opened next.
    Open,
    /// To the error sink.
    Report(Errno),
    /// The completion is not of the operation's kind: the ring is inconsistent.
    Mismatch,
}

/// The route of `completion` for an operation of `kind`.
///
/// A lookup goes by the policy's verdict on the metadata; an open yields a
/// task on success and a report on failure; a completion of the other kind
/// is a mismatch.
pub open spec fn route_of(
    kind: OpKind,
    completion: Completion,
    expect_dev: Option<u64>,
    include_empty: bool,
) -> Route {
    match (kind, completion) {
        (OpKind::Stat, Completion::Stat(metadata)) => {
            let verdict = match expect_dev {
                Some(dev) => filtered_verdict(metadata, dev, include_empty),
                None => length_verdict(metadata, include_empty),
            };
            match verdict {
                Verdict::Record(size) => Route::Record(size),
                Verdict::Descend => Route::Open,
                Verdict::Report(e) => Route::Report(e),
                _ => Route::Skip,
            }
        },
        (OpKind::OpenDir, Completion::Opened(Ok(handle))) => Route::Spawn(handle),
        (OpKind::OpenDir, Completion::Opened(Err(e))) => Route::Report(e),
        _ => Route::Mismatch,
    }
}

/// Computes [`route_of`].
pub fn route(
    kind: OpKind,
    completion: Completion,
    expect_dev: Option<u64>,
    include_empty: bool,
) -> (r: Route)
    ensures
        r == route_of(kind, completion, expect_dev, include_empty),
{
    match kind {
        OpKind::Stat => match completion {
            Completion::Stat(metadata) => {
                let verdict = match expect_dev {
                    Some(dev) => on_filtered_metadata(metadata, dev, include_empty),
                    None => on_length(metadata, include_empty),
                };
                match verdict {
                    Verdict::Record(size) => Route::Record(size),
                    Verdict::Descend => Route::Open,
                    Verdict::Report(e) => Route::Report(e),
                    _ => Route::Skip,
                }
            },
            Completion::Opened(_) => Route::Mismatch,
        },
        OpKind::OpenDir => match completion {
            Completion::Opened(Ok(handle)) => Route::Spawn(handle),
            Completion::Opened(Err(e)) => Route::Report(e),
            Completion::Stat(_) => Route::Mismatch,
        },
    }
}

/// The tags of the operations in the slots `queue`, in order.
pub open spec fn tags_of(slots: Seq<Option<PendingOperation>>, queue: Seq<usize>) -> Seq<u64> {
    Seq::new(queue.len(), |k: int| tag_of(queue[k] as int, slots[queue[k] as int]->Some_0.kind) as u64)
}

/// A ring with its submission queue: the slots whose operations are queued
/// but not yet submitted, in the order they were queued.
pub struct BatchEngine {
    ring: OperationRing,
    queue: Vec<usize>,
}

impl BatchEngine {
    /// The slots of the ring.
    pub closed spec fn slots(&self) -> Seq<Option<PendingOperation>> {
        self.ring@
    }

    /// The slots that are queued but not yet submitted, oldest first.
    pub closed spec fn queued(&self) -> Seq<usize> {
        self.queue@
    }

    /// The engine's invariant: the ring is well formed, and the queue holds
    /// occupied slots only, each at most once.
    pub closed spec fn wf(&self) -> bool {
        &&& self.ring.wf()
        &&& forall|k: int|
            0 <= k < self.queue@.len() ==> (#[trigger] self.queue@[k]) < self.ring@.len()
                && self.ring@[self.queue@[k] as int] is Some
        &&& forall|k: int, l: int|
            0 <= k < l < self.queue@.len() ==> #[trigger] self.queue@[k] != #[trigger] self.queue@[l]
    }

    /// Whether the operation in `slot` has been submitted and not completed.
    pub open spec fn in_flight(&self, slot: int) -> bool {
        &&& 0 <= slot < self.slots().len()
        &&& self.slots()[slot] is Some
        &&& !self.queued().contains(slot as usize)
    }

    /// What the invariant says of the queue, for callers that cannot see it.
    pub proof fn lemma_queue_in_ring(&self)
        requires
            self.wf(),
        ensures
            valid_capacity(self.slots().len() as int),
            self.queued().no_duplicates(),
            self.queued().len() <= occupancy(self.slots()),
            forall|k: int|
                0 <= k < self.queued().len() ==> (#[trigger] self.queued()[k])
                    < self.slots().len() && self.slots()[self.queued()[k] as int] is Some,
    {
        self.ring.lemma_mask_mirrors_slots();
        lemma_distinct_occupied(self.ring@, self.queue@);
    }

    /// An engine over a ring of `capacity` slots; `None` unless `capacity`
    /// is a power of two up to 64.
    pub fn new(capacity: usize) -> (engine: Option<BatchEngine>)
        ensures
            engine is Some <==> valid_capacity(capacity as int),
            engine matches Some(e) ==> {
                &&& e.wf()
                &&& e.slots().len() == capacity
                &&& occupancy(e.slots()) == 0
                &&& e.queued().len() == 0
            },
    {
        match OperationRing::new(capacity) {
            None => None,
            Some(ring) => {
                proof {
                    crate::ring::lemma_occupancy_extremes(ring@);
                }
                Some(BatchEngine { ring, queue: Vec::new() })
            },
        }
    }

    /// The number of slots.
    pub fn capacity(&self) -> (n: usize)
        requires
            self.wf(),
        ensures
            n == self.slots().len(),
    {
        self.ring.capacity()
    }

    /// The number of operations that have not completed, queued or in flight.
    pub fn pending(&self) -> (n: usize)
        requires
            self.wf(),
        ensures
            n == occupancy(self.slots()),
    {
        self.ring.pending()
    }

    /// The number of operations that are queued but not yet submitted,
    /// which are among those that have not completed.
    pub fn unsubmitted(&self) -> (n: usize)
        requires
            self.wf(),
        ensures
            n == self.queued().len(),
            n <= occupancy(self.slots()),
    {
        proof {
            self.lemma_queue_in_ring();
        }
        self.queue.len()
    }

    /// Whether every slot is taken, so that nothing can be queued before a
    /// completion has been seen.
    pub fn is_full(&self) -> (full: bool)
        requires
            self.wf(),
        ensures
            full == (occupancy(self.slots()) == self.slots().len()),
            full == all_occupied(self.slots()),
            full ==> occupancy(self.slots()) > 0,
    {
        proof {
            self.ring.lemma_mask_mirrors_slots();
        }
        self.ring.is_full()
    }

    /// Whether the ring has drained: no operation is queued or in flight.
    pub fn is_drained(&self) -> (drained: bool)
        requires
            self.wf(),
        ensures
            drained == (occupancy(self.slots()) == 0),
    {
        self.ring.is_empty()
    }

    /// The tag of the operation in the lowest-numbered occupied slot, if
    /// any slot is occupied.
    pub fn lowest_pending(&self) -> (tag: Option<u64>)
        requires
            self.wf(),
        ensures
            match tag {
                Some(t) => {
                    &&& untag(t) matches Some((slot, kind))
                    &&& crate::ring::is_lowest_occupied(self.slots(), slot as int)
                    &&& self.slots()[slot as int]->Some_0.kind == kind
                },
                None => occupancy(self.slots()) == 0,
            },
    {
        proof {
            self.ring.lemma_mask_mirrors_slots();
            crate::ring::lemma_occupancy_extremes(self.ring@);
        }
        match self.ring.lowest_occupied() {
            None => None,
            Some(slot) => match self.ring.kind_at(slot) {
                Some(kind) => Some(encode_tag(slot, kind)),
                None => None,
            },
        }
    }

    /// The kind and the entry of the operation in `slot`, if it holds one.
    pub fn operation_at(&self, slot: usize) -> (held: Option<(OpKind, usize)>)
        requires
            self.wf(),
        ensures
            held == (if slot < self.slots().len() && self.slots()[slot as int] is Some {
                let op = self.slots()[slot as int]->Some_0;
                Some((op.kind, op.entry))
            } else {
                None
            }),
    {
        self.ring.operation_at(slot)
    }

    /// Queues an operation for the entry at position `entry`, in the
    /// lowest-numbered free slot, and returns its tag. A full ring is left
    /// as it is and hands the name back: the caller submits, waits for a
    /// completion and tries again.
    pub fn enqueue(&mut self, kind: OpKind, entry: usize, name: Vec<u8>) -> (result: Result<
        u64,
        Vec<u8>,
    >)
        requires
            old(self).wf(),
        ensures
            final(self).wf(),
            match result {
                Ok(tag) => {
                    &&& untag(tag) matches Some((slot, tagged))
                    &&& tagged == kind
                    &&& is_lowest_free(old(self).slots(), slot as int)
                    &&& final(self).slots() == old(self).slots().update(
                        slot as int,
                        Some(PendingOperation { kind, entry, name }),
                    )
                    &&& final(self).queued() == old(self).queued().push(slot)
                    &&& occupancy(final(self).slots()) == occupancy(old(self).slots()) + 1
                },
                Err(back) => {
                    &&& all_occupied(old(self).slots())
                    &&& final(self).slots() == old(self).slots()
                    &&& final(self).queued() == old(self).queued()
                    &&& back == name
                },
            },
    {
        let op = PendingOperation { kind, entry, name };
        match self.ring.insert(op) {
            Err(back) => Err(back.name),
            Ok(slot) => {
                self.queue.push(slot);
                proof {
                    self.ring.lemma_mask_mirrors_slots();
                }
                Ok(encode_tag(slot, kind))
            },
        }
    }

    /// Submits the batch: hands out the tags of the queued operations, in
    /// the order they were queued, and empties the queue. The operations
    /// stay in their slots until each is completed.
    pub fn flush(&mut self) -> (tags: Vec<u64>)
        requires
            old(self).wf(),
        ensures
            final(self).wf(),
            final(self).slots() == old(self).slots(),
            final(self).queued().len() == 0,
            tags@ == tags_of(old(self).slots(), old(self).queued()),
    {
        let mut tags: Vec<u64> = Vec::new();
        let mut k: usize = 0;
        proof {
            self.ring.lemma_mask_mirrors_slots();
        }
        while k < self.queue.len()
            invariant
                self.wf(),
                *self == *old(self),
                k <= self.queue.len(),
                self.ring@.len() <= 64,
                tags@.len() == k,
                forall|m: int|
                    0 <= m < k ==> #[trigger] tags@[m] == tags_of(self.ring@, self.queue@)[m],
            decreases self.queue.len() - k,
        {
            let slot = self.queue[k];
            let kind = match self.ring.kind_at(slot) {
                Some(kind) => kind,
                None => OpKind::Stat,
            };
            tags.push(encode_tag(slot, kind));
            k += 1;
        }
        self.queue.clear();
        tags
    }

    /// Takes the completed operation that `tag` names out of the ring and
    /// frees its slot.
    ///
    /// This succeeds exactly when `tag` names a slot that holds an
    /// operation of the tag's kind which has been submitted. For any other
    /// tag nothing is handed out and the engine is left as it is: the ring
    /// never gives out completion data for a slot that is free or not yet
    /// submitted.
    pub fn take_completed(&mut self, tag: u64) -> (op: Option<PendingOperation>)
        requires
            old(self).wf(),
        ensures
            final(self).wf(),
            final(self).queued() == old(self).queued(),
            match untag(tag) {
                Some((slot, kind)) if old(self).in_flight(slot as int) && old(
                    self,
                ).slots()[slot as int]->Some_0.kind == kind => {
                    &&& op == old(self).slots()[slot as int]
                    &&& final(self).slots() == old(self).slots().update(slot as int, None)
                    &&& occupancy(final(self).slots()) + 1 == occupancy(old(self).slots())
                },
                _ => op is None && final(self).slots() == old(self).slots(),
            },
    {
        let (slot, kind) = match decode_tag(tag) {
            None => {
                return None;
            },
            Some(pair) => pair,
        };
        match self.ring.kind_at(slot) {
            None => {
                return None;
            },
            Some(held) => {
                if held != kind {
                    return None;
                }
            },
        }
        let mut k: usize = 0;
        while k < self.queue.len()
            invariant
                self.wf(),
                *self == *old(self),
                k <= self.queue.len(),
                untag(tag) == Some((slot, kind)),
                forall|m: int| 0 <= m < k ==> #[trigger] self.queue@[m] != slot,
            decreases self.queue.len() - k,
        {
            if self.queue[k] == slot {
                return None;
            }
            k += 1;
        }
        let op = self.ring.complete(slot);
        proof {
            assert forall|m: int| 0 <= m < self.queue@.len() implies (#[trigger] self.queue@[m])
                < self.ring@.len() && self.ring@[self.queue@[m] as int] is Some by {}
        }
        op
    }
}

/// Distinct occupied slots are no more than the occupied slots there are.
proof fn lemma_distinct_occupied(slots: Seq<Option<PendingOperation>>, queue: Seq<usize>)
    requires
        forall|k: int|
            0 <= k < queue.len() ==> (#[trigger] queue[k]) < slots.len() && slots[queue[k] as int] is Some,
        forall|k: int, l: int| 0 <= k < l < queue.len() ==> #[trigger] queue[k] != #[trigger] queue[l],
    ensures
        queue.no_duplicates(),
        queue.len() <= occupancy(slots),
    decreases queue.len(),
{
    if queue.len() > 0 {
        let last = queue.last();
        let rest = queue.drop_last();
        let freed = slots.update(last as int, None);
        crate::ring::lemma_occupancy_update(slots, last as int, None);
        assert forall|k: int| 0 <= k < rest.len() implies (#[trigger] rest[k]) < freed.len()
            && freed[rest[k] as int] is Some by {}
        lemma_distinct_occupied(freed, rest);
    }
}

} // verus!
