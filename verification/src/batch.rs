//! The traversal as the workers run it: the entries of a directory go
//! through the ring in batches, completions come back in any order, and the
//! directory is done only when the ring has drained.

use crate::engine::{
    plan_entry, plan_for, route, route_of, untag, BatchEngine, Completion, Plan, Route,
};
use crate::entry::Errno;
use crate::enumerator::{is_dot, is_dot_name, Enumerator};
use crate::histogram::{
    kept, lemma_samples_of_concat, lemma_samples_of_one, samples_of, SizeHistogram,
};
use crate::policy::{entry_verdict, Verdict};
use crate::ring::{occupancy, valid_capacity, OpKind, PendingOperation};
use crate::traverse::path_join;
use crate::tree::{
    join, reports_view, walk_entries, walk_entry, walk_listing, Node, Outcome, Report,
};
use vstd::multiset::Multiset;
use vstd::prelude::*;

verus! {

/// What has been recorded and reported, without regard to order.
#[verifier::ext_equal]
pub(crate) struct Tally {
    pub(crate) sizes: Multiset<u64>,
    pub(crate) reports: Multiset<(Seq<u8>, Errno)>,
}

impl Tally {
    /// Nothing.
    pub(crate) open spec fn zero() -> Tally {
        Tally { sizes: Multiset::empty(), reports: Multiset::empty() }
    }

    /// One recorded size, as the histogram keeps it.
    pub(crate) open spec fn size(size: u64) -> Tally {
        Tally { sizes: Multiset::empty().insert(kept(size)), reports: Multiset::empty() }
    }

    /// One report.
    pub(crate) open spec fn report(path: Seq<u8>, error: Errno) -> Tally {
        Tally { sizes: Multiset::empty(), reports: Multiset::empty().insert((path, error)) }
    }

    /// Both tallies together.
    pub(crate) open spec fn plus(self, other: Tally) -> Tally {
        Tally { sizes: self.sizes.add(other.sizes), reports: self.reports.add(other.reports) }
    }

    /// The tally of an outcome: its sizes and reports, each as a multiset.
    pub(crate) open spec fn of(outcome: Outcome) -> Tally {
        Tally { sizes: samples_of(outcome.sizes), reports: outcome.reports.to_multiset() }
    }
}

/// What opening the entry `node` of the directory at `path` comes to, the
/// traversal of its subtree aside: a report where it cannot be listed.
pub(crate) open spec fn open_tally(path: Seq<u8>, node: Node) -> Tally {
    match node.listing {
        Err(e) => Tally::report(join(path, node.name@), e),
        Ok(_) => Tally::zero(),
    }
}

/// What one entry of a listing comes to, the traversal of its subtree aside.
pub(crate) open spec fn local_tally(
    path: Seq<u8>,
    node: Node,
    expect_dev: Option<u64>,
    include_empty: bool,
) -> Tally {
    if is_dot(node.name@) {
        Tally::zero()
    } else {
        match entry_verdict(node.file_type, node.metadata, expect_dev, include_empty) {
            Verdict::Record(size) => Tally::size(size),
            Verdict::Report(e) => Tally::report(join(path, node.name@), e),
            Verdict::Descend => open_tally(path, node),
            _ => Tally::zero(),
        }
    }
}

/// Whether an entry is a directory that the traversal enters.
pub(crate) open spec fn spawns(node: Node, expect_dev: Option<u64>, include_empty: bool) -> bool {
    !is_dot(node.name@) && entry_verdict(
        node.file_type,
        node.metadata,
        expect_dev,
        include_empty,
    ) == Verdict::Descend && node.listing is Ok
}

/// The local tallies of the first `n` items.
pub(crate) open spec fn local_sum(
    path: Seq<u8>,
    items: Seq<Node>,
    n: int,
    expect_dev: Option<u64>,
    include_empty: bool,
) -> Tally
    decreases n,
{
    if n <= 0 {
        Tally::zero()
    } else {
        local_sum(path, items, n - 1, expect_dev, include_empty).plus(
            local_tally(path, items[n - 1], expect_dev, include_empty),
        )
    }
}

/// The tallies of the subtrees of those of the first `n` items that the
/// traversal enters.
pub(crate) open spec fn subtree_sum(
    path: Seq<u8>,
    items: Seq<Node>,
    n: int,
    expect_dev: Option<u64>,
    include_empty: bool,
) -> Tally
    decreases n,
{
    if n <= 0 {
        Tally::zero()
    } else {
        let rest = subtree_sum(path, items, n - 1, expect_dev, include_empty);
        if spawns(items[n - 1], expect_dev, include_empty) {
            let node = items[n - 1];
            rest.plus(
                Tally::of(
                    walk_listing(join(path, node.name@), node.listing, expect_dev, include_empty),
                ),
            )
        } else {
            rest
        }
    }
}

/// The answer of the tree to the operation `op` on the directory `items`:
/// the entry's metadata for a lookup; for an open, the entry's position as
/// the handle, or the error of its listing.
spec fn answer(items: Seq<Node>, op: PendingOperation) -> Completion {
    let node = items[op.entry as int];
    match op.kind {
        OpKind::Stat => Completion::Stat(node.metadata),
        OpKind::OpenDir => Completion::Opened(
            match node.listing {
                Ok(_) => Ok(op.entry as u64),
                Err(e) => Err(e),
            },
        ),
    }
}

/// Whether `op` is an operation that the traversal of `items` queues: it
/// names an entry of the listing by position and name, a lookup is what
/// [`plan_for`] asks for, and an open is for an entry that is entered.
spec fn op_valid(
    items: Seq<Node>,
    op: PendingOperation,
    expect_dev: Option<u64>,
    include_empty: bool,
) -> bool {
    &&& op.entry < items.len()
    &&& op.name@ == items[op.entry as int].name@
    &&& !is_dot(op.name@)
    &&& match op.kind {
        OpKind::Stat => plan_for(items[op.entry as int].file_type, expect_dev) == Plan::Enqueue(
            OpKind::Stat,
        ),
        OpKind::OpenDir => entry_verdict(
            items[op.entry as int].file_type,
            items[op.entry as int].metadata,
            expect_dev,
            include_empty,
        ) == Verdict::Descend,
    }
}

/// What a pending operation will have come to once it has completed.
spec fn owed(
    path: Seq<u8>,
    items: Seq<Node>,
    slot: Option<PendingOperation>,
    expect_dev: Option<u64>,
    include_empty: bool,
) -> Tally {
    match slot {
        None => Tally::zero(),
        Some(op) => local_tally(path, items[op.entry as int], expect_dev, include_empty),
    }
}

/// What all pending operations together will have come to.
spec fn owed_sum(
    path: Seq<u8>,
    items: Seq<Node>,
    slots: Seq<Option<PendingOperation>>,
    expect_dev: Option<u64>,
    include_empty: bool,
) -> Tally
    decreases slots.len(),
{
    if slots.len() == 0 {
        Tally::zero()
    } else {
        owed_sum(path, items, slots.drop_last(), expect_dev, include_empty).plus(
            owed(path, items, slots.last(), expect_dev, include_empty),
        )
    }
}

/// The work that the pending operations still stand for: a lookup may be
/// followed by an open, an open by nothing.
spec fn work(slots: Seq<Option<PendingOperation>>) -> nat
    decreases slots.len(),
{
    if slots.len() == 0 {
        0
    } else {
        work(slots.drop_last()) + slot_work(slots.last())
    }
}

/// The work of one slot.
spec fn slot_work(slot: Option<PendingOperation>) -> nat {
    match slot {
        None => 0,
        Some(op) => match op.kind {
            OpKind::Stat => 2,
            OpKind::OpenDir => 1,
        },
    }
}

/// Filling or emptying one slot changes what is owed by that slot alone.
proof fn lemma_owed_update(
    path: Seq<u8>,
    items: Seq<Node>,
    slots: Seq<Option<PendingOperation>>,
    s: int,
    value: Option<PendingOperation>,
    expect_dev: Option<u64>,
    include_empty: bool,
)
    requires
        0 <= s < slots.len(),
    ensures
        owed_sum(path, items, slots.update(s, value), expect_dev, include_empty).plus(
            owed(path, items, slots[s], expect_dev, include_empty),
        ) =~= owed_sum(path, items, slots, expect_dev, include_empty).plus(
            owed(path, items, value, expect_dev, include_empty),
        ),
    decreases slots.len(),
{
    let updated = slots.update(s, value);
    let init = slots.drop_last();
    let init_sum = owed_sum(path, items, init, expect_dev, include_empty);
    let new_slot = owed(path, items, value, expect_dev, include_empty);
    let right = owed_sum(path, items, slots, expect_dev, include_empty).plus(new_slot);
    if s == slots.len() - 1 {
        assert(updated.drop_last() == init);
    } else {
        assert(updated.drop_last() == init.update(s, value));
        lemma_owed_update(path, items, init, s, value, expect_dev, include_empty);
        let last = owed(path, items, slots.last(), expect_dev, include_empty);
        assert(right.sizes =~= init_sum.sizes.add(new_slot.sizes).add(last.sizes));
        assert(right.reports =~= init_sum.reports.add(new_slot.reports).add(last.reports));
    }
}

/// Filling or emptying one slot changes the work by that slot alone.
proof fn lemma_work_update(
    slots: Seq<Option<PendingOperation>>,
    s: int,
    value: Option<PendingOperation>,
)
    requires
        0 <= s < slots.len(),
    ensures
        work(slots.update(s, value)) + slot_work(slots[s]) == work(slots) + slot_work(value),
    decreases slots.len(),
{
    let updated = slots.update(s, value);
    if s == slots.len() - 1 {
        assert(updated.drop_last() == slots.drop_last());
    } else {
        assert(updated.drop_last() == slots.drop_last().update(s, value));
        lemma_work_update(slots.drop_last(), s, value);
    }
}

/// A ring without operations owes nothing.
proof fn lemma_owed_nothing(
    path: Seq<u8>,
    items: Seq<Node>,
    slots: Seq<Option<PendingOperation>>,
    expect_dev: Option<u64>,
    include_empty: bool,
)
    requires
        occupancy(slots) == 0,
    ensures
        owed_sum(path, items, slots, expect_dev, include_empty) =~= Tally::zero(),
    decreases slots.len(),
{
    if slots.len() > 0 {
        lemma_owed_nothing(path, items, slots.drop_last(), expect_dev, include_empty);
    }
}

/// The outcome of one entry is its local tally and, where the traversal
/// enters it, the outcome of its subtree.
proof fn lemma_entry_tally(
    path: Seq<u8>,
    node: Node,
    expect_dev: Option<u64>,
    include_empty: bool,
)
    ensures
        Tally::of(walk_entry(path, node, expect_dev, include_empty)) =~= local_tally(
            path,
            node,
            expect_dev,
            include_empty,
        ).plus(
            if spawns(node, expect_dev, include_empty) {
                Tally::of(
                    walk_listing(join(path, node.name@), node.listing, expect_dev, include_empty),
                )
            } else {
                Tally::zero()
            },
        ),
{
    crate::histogram::lemma_samples_of_empty();
    lemma_no_reports();
    let entry_path = join(path, node.name@);
    if !is_dot(node.name@) {
        match entry_verdict(node.file_type, node.metadata, expect_dev, include_empty) {
            Verdict::Record(size) => {
                lemma_samples_of_one(size);
            },
            Verdict::Report(e) => {
                lemma_one_report(entry_path, e);
            },
            Verdict::Descend => {
                match node.listing {
                    Err(e) => {
                        lemma_one_report(entry_path, e);
                    },
                    Ok(_) => {},
                }
            },
            _ => {},
        }
    }
}

/// No reports make the empty multiset.
pub(crate) proof fn lemma_no_reports()
    ensures
        Seq::<(Seq<u8>, Errno)>::empty().to_multiset() == Multiset::<(Seq<u8>, Errno)>::empty(),
{
    let e = Seq::<(Seq<u8>, Errno)>::empty();
    e.to_multiset_ensures();
    assert forall|a: (Seq<u8>, Errno)| e.to_multiset().count(a) == 0 by {}
}

/// One report makes the multiset of that report.
pub(crate) proof fn lemma_one_report(path: Seq<u8>, error: Errno)
    ensures
        seq![(path, error)].to_multiset() == Multiset::<(Seq<u8>, Errno)>::empty().insert(
            (path, error),
        ),
{
    lemma_no_reports();
    vstd::seq_lib::to_multiset_build(Seq::<(Seq<u8>, Errno)>::empty(), (path, error));
}

/// The outcome of the first `n` entries is their local tallies and the
/// outcomes of the subtrees that the traversal enters.
pub(crate) proof fn lemma_items_tally(
    path: Seq<u8>,
    items: Seq<Node>,
    n: int,
    expect_dev: Option<u64>,
    include_empty: bool,
)
    requires
        0 <= n <= items.len(),
    ensures
        Tally::of(walk_entries(path, items.take(n), expect_dev, include_empty)) =~= local_sum(
            path,
            items,
            n,
            expect_dev,
            include_empty,
        ).plus(subtree_sum(path, items, n, expect_dev, include_empty)),
    decreases n,
{
    crate::histogram::lemma_samples_of_empty();
    lemma_no_reports();
    if n > 0 {
        let prefix = items.take(n);
        assert(prefix.drop_last() == items.take(n - 1));
        lemma_items_tally(path, items, n - 1, expect_dev, include_empty);
        lemma_entry_tally(path, items[n - 1], expect_dev, include_empty);
        let head = walk_entries(path, items.take(n - 1), expect_dev, include_empty);
        let last = walk_entry(path, items[n - 1], expect_dev, include_empty);
        lemma_samples_of_concat(head.sizes, last.sizes);
        vstd::seq_lib::lemma_multiset_commutative(head.reports, last.reports);
    }
}

/// Whether slot `s` holds an operation for the entry at position `j`.
spec fn holds(slots: Seq<Option<PendingOperation>>, s: int, j: int) -> bool {
    0 <= s < slots.len() && slots[s] is Some && slots[s]->Some_0.entry == j
}

/// Where a directory stands after its first `i` items have been planned:
/// every pending operation is one that the traversal queues, for one of
/// those items; what has been recorded and reported, with what the pending
/// operations still owe, is what those items come to; and an item is marked
/// for descent only if the traversal enters it, and is marked or still
/// pending if it does.
spec fn standing(
    slots: Seq<Option<PendingOperation>>,
    recorded: Multiset<u64>,
    reported: Multiset<(Seq<u8>, Errno)>,
    descend: Seq<bool>,
    path: Seq<u8>,
    items: Seq<Node>,
    i: int,
    expect_dev: Option<u64>,
    include_empty: bool,
    recorded_before: Multiset<u64>,
    reported_before: Multiset<(Seq<u8>, Errno)>,
) -> bool {
    let owes = owed_sum(path, items, slots, expect_dev, include_empty);
    let due = local_sum(path, items, i, expect_dev, include_empty);
    &&& 0 <= i <= items.len()
    &&& descend.len() == items.len()
    &&& forall|s: int|
        0 <= s < slots.len() && (#[trigger] slots[s]) is Some ==> op_valid(
            items,
            slots[s]->Some_0,
            expect_dev,
            include_empty,
        ) && slots[s]->Some_0.entry < i
    &&& recorded.add(owes.sizes) == recorded_before.add(due.sizes)
    &&& reported.add(owes.reports) == reported_before.add(due.reports)
    &&& forall|j: int|
        0 <= j < descend.len() && #[trigger] descend[j] ==> j < i && spawns(
            items[j],
            expect_dev,
            include_empty,
        )
    &&& forall|j: int|
        0 <= j < i && spawns(#[trigger] items[j], expect_dev, include_empty) ==> descend[j]
            || exists|s: int| holds(slots, s, j)
}

/// The multiset of the views of `reports`.
pub open spec fn reported(reports: Seq<Report>) -> Multiset<(Seq<u8>, Errno)> {
    reports_view(reports).to_multiset()
}

/// One more report is one more element of the multiset.
pub(crate) proof fn lemma_reported_push(before: Seq<Report>, after: Seq<Report>, path: Seq<u8>, e: Errno)
    requires
        reports_view(after) == reports_view(before).push((path, e)),
    ensures
        reported(after) == reported(before).insert((path, e)),
{
    vstd::seq_lib::to_multiset_build(reports_view(before), (path, e));
}

/// The capacity that a worker's entry buffer starts with.
pub const ENTRY_BUFFER: usize = 32768;

/// One worker's own state: its ring, its recorder, and the capacity that
/// its entry buffer has grown to.
pub struct WorkerContext {
    engine: BatchEngine,
    recorder: SizeHistogram,
    buffer: usize,
}

/// A completion that has been taken out of the ring and routed.
#[derive(Debug)]
pub struct Completed {
    /// Where the completion goes.
    pub route: Route,
    /// The position of the entry in its directory's enumeration.
    pub entry: usize,
    /// The entry's name, handed back by the slot that owned it.
    pub name: Vec<u8>,
}

impl WorkerContext {
    /// The context's invariant: that of its engine.
    pub closed spec fn wf(&self) -> bool {
        self.engine.wf()
    }

    /// The slots of the ring.
    pub closed spec fn slots(&self) -> Seq<Option<PendingOperation>> {
        self.engine.slots()
    }

    /// The slots that are queued but not yet submitted.
    pub closed spec fn queued(&self) -> Seq<usize> {
        self.engine.queued()
    }

    /// The sizes recorded so far.
    pub closed spec fn recorded(&self) -> Multiset<u64> {
        self.recorder@
    }

    /// The capacity of the entry buffer, which is kept from one directory
    /// to the next.
    pub closed spec fn buffer_capacity(&self) -> usize {
        self.buffer
    }

    /// Whether the operation in `slot` has been submitted and not completed.
    pub open spec fn in_flight(&self, slot: int) -> bool {
        &&& 0 <= slot < self.slots().len()
        &&& self.slots()[slot] is Some
        &&& !self.queued().contains(slot as usize)
    }

    /// A context with a ring of `capacity` free slots, an empty recorder
    /// and an entry buffer of [`ENTRY_BUFFER`] bytes; `None` unless
    /// `capacity` is a power of two up to 64.
    pub fn new(capacity: usize) -> (ctx: Option<WorkerContext>)
        ensures
            ctx is Some <==> valid_capacity(capacity as int),
            ctx matches Some(c) ==> {
                &&& c.wf()
                &&& c.slots().len() == capacity
                &&& occupancy(c.slots()) == 0
                &&& c.queued().len() == 0
                &&& c.recorded() == Multiset::<u64>::empty()
                &&& c.buffer_capacity() == ENTRY_BUFFER
            },
    {
        match BatchEngine::new(capacity) {
            None => None,
            Some(engine) => Some(
                WorkerContext { engine, recorder: SizeHistogram::new(), buffer: ENTRY_BUFFER },
            ),
        }
    }

    /// Starts the enumeration of a directory, with the buffer as large as
    /// the directories before have made it.
    pub fn begin_listing(&self) -> (enumerator: Enumerator)
        ensures
            enumerator.spec_capacity() == self.buffer_capacity(),
            !enumerator.spec_ended(),
    {
        Enumerator::new(self.buffer)
    }

    /// Ends the enumeration of a directory and keeps the buffer at the
    /// capacity that it has grown to. The buffer never shrinks.
    pub fn end_listing(&mut self, enumerator: Enumerator)
        requires
            old(self).wf(),
        ensures
            final(self).wf(),
            final(self).slots() == old(self).slots(),
            final(self).queued() == old(self).queued(),
            final(self).recorded() == old(self).recorded(),
            final(self).buffer_capacity() == if enumerator.spec_capacity() > old(
                self,
            ).buffer_capacity() {
                enumerator.spec_capacity()
            } else {
                old(self).buffer_capacity()
            },
    {
        let capacity = enumerator.capacity();
        if capacity > self.buffer {
            self.buffer = capacity;
        }
    }

    /// The number of operations that have not completed.
    pub fn pending(&self) -> (n: usize)
        requires
            self.wf(),
        ensures
            n == occupancy(self.slots()),
    {
        self.engine.pending()
    }

    /// The kind and the entry of the operation in `slot`, if it holds one.
    pub fn operation_at(&self, slot: usize) -> (held: Option<(OpKind, usize)>)
        requires
            self.wf(),
        ensures
            held == (if slot < self.slots().len() && self.slots()[slot as int] is Some {
                let op = self.slots()[slot as int]->Some_0;
                Some((op.kind, op.entry))
            } else {
                None
            }),
    {
        self.engine.operation_at(slot)
    }

    /// Whether the ring is full, so that a completion must be seen before
    /// anything more is queued.
    pub fn is_full(&self) -> (full: bool)
        requires
            self.wf(),
        ensures
            full == (occupancy(self.slots()) == self.slots().len()),
            full == crate::ring::all_occupied(self.slots()),
            full ==> occupancy(self.slots()) > 0,
    {
        self.engine.is_full()
    }

    /// Queues an operation as [`BatchEngine::enqueue`] does.
    pub fn enqueue(&mut self, kind: OpKind, entry: usize, name: Vec<u8>) -> (result: Result<
        u64,
        Vec<u8>,
    >)
        requires
            old(self).wf(),
        ensures
            final(self).wf(),
            final(self).recorded() == old(self).recorded(),
            final(self).buffer_capacity() == old(self).buffer_capacity(),
            match result {
                Ok(tag) => {
                    &&& untag(tag) matches Some((slot, tagged))
                    &&& tagged == kind
                    &&& crate::ring::is_lowest_free(old(self).slots(), slot as int)
                    &&& final(self).slots() == old(self).slots().update(
                        slot as int,
                        Some(PendingOperation { kind, entry, name }),
                    )
                    &&& final(self).queued() == old(self).queued().push(slot)
                },
                Err(back) => {
                    &&& crate::ring::all_occupied(old(self).slots())
                    &&& final(self).slots() == old(self).slots()
                    &&& final(self).queued() == old(self).queued()
                    &&& back == name
                },
            },
    {
        self.engine.enqueue(kind, entry, name)
    }

    /// Submits the batch as [`BatchEngine::flush`] does.
    pub fn flush(&mut self) -> (tags: Vec<u64>)
        requires
            old(self).wf(),
        ensures
            final(self).wf(),
            final(self).recorded() == old(self).recorded(),
            final(self).buffer_capacity() == old(self).buffer_capacity(),
            final(self).slots() == old(self).slots(),
            final(self).queued().len() == 0,
            tags@ == crate::engine::tags_of(old(self).slots(), old(self).queued()),
    {
        self.engine.flush()
    }

    /// Takes the completion that `tag` names: frees its slot, routes it by
    /// [`route_of`], and records the size where the route is a record.
    ///
    /// Nothing is handed out, and nothing changes, unless `tag` names a
    /// slot that holds a submitted operation of the tag's kind.
    pub fn complete(
        &mut self,
        tag: u64,
        completion: Completion,
        expect_dev: Option<u64>,
        include_empty: bool,
    ) -> (done: Option<Completed>)
        requires
            old(self).wf(),
        ensures
            final(self).wf(),
            final(self).queued() == old(self).queued(),
            final(self).buffer_capacity() == old(self).buffer_capacity(),
            match untag(tag) {
                Some((slot, kind)) if old(self).in_flight(slot as int) && old(
                    self,
                ).slots()[slot as int]->Some_0.kind == kind => {
                    let op = old(self).slots()[slot as int]->Some_0;
                    &&& done matches Some(c)
                    &&& c.route == route_of(kind, completion, expect_dev, include_empty)
                    &&& c.entry == op.entry
                    &&& c.name == op.name
                    &&& final(self).slots() == old(self).slots().update(slot as int, None)
                    &&& final(self).recorded() == (match c.route {
                        Route::Record(size) => old(self).recorded().insert(kept(size)),
                        _ => old(self).recorded(),
                    })
                },
                _ => {
                    &&& done is None
                    &&& final(self).slots() == old(self).slots()
                    &&& final(self).recorded() == old(self).recorded()
                },
            },
    {
        match self.engine.take_completed(tag) {
            None => None,
            Some(op) => {
                let routed = route(op.kind, completion, expect_dev, include_empty);
                match routed {
                    Route::Record(size) => {
                        self.recorder.record(size);
                    },
                    _ => {},
                }
                Some(Completed { route: routed, entry: op.entry, name: op.name })
            },
        }
    }

    /// Ends the worker: hands out the histogram if the ring has drained.
    /// A ring that still holds operations is a broken invariant; then the
    /// number of those operations comes back, and the caller must not go on.
    pub fn finish(self) -> (result: Result<SizeHistogram, usize>)
        requires
            self.wf(),
        ensures
            match result {
                Ok(histogram) => occupancy(self.slots()) == 0 && histogram@ == self.recorded(),
                Err(pending) => pending == occupancy(self.slots()) && pending > 0,
            },
    {
        let pending = self.engine.pending();
        if pending == 0 {
            Ok(self.recorder)
        } else {
            Err(pending)
        }
    }
}

/// The tree's answer to the operation that `tag` names, if it names one
/// that the traversal of `items` has queued.
fn answer_for(items: &Vec<Node>, tag: u64, ctx: &WorkerContext) -> (completion: Option<
    Completion,
>)
    requires
        ctx.wf(),
    ensures
        match untag(tag) {
            Some((slot, _)) if slot < ctx.slots().len() && ctx.slots()[slot as int] is Some
                && ctx.slots()[slot as int]->Some_0.entry < items.len() => completion == Some(
                answer(items@, ctx.slots()[slot as int]->Some_0),
            ),
            _ => completion is None,
        },
{
    let (slot, _) = match crate::engine::decode_tag(tag) {
        Some(pair) => pair,
        None => {
            return None;
        },
    };
    let (kind, entry) = match ctx.operation_at(slot) {
        Some(pair) => pair,
        None => {
            return None;
        },
    };
    if entry >= items.len() {
        return None;
    }
    let node = &items[entry];
    match kind {
        OpKind::Stat => Some(Completion::Stat(node.metadata)),
        OpKind::OpenDir => Some(
            Completion::Opened(
                match &node.listing {
                    Ok(_) => Ok(entry as u64),
                    Err(e) => Err(*e),
                },
            ),
        ),
    }
}

/// Submits what is queued and takes the completion of the operation in the
/// lowest-numbered occupied slot: its result is recorded, reported, marked
/// for descent or, for a lookup that found a directory, queued again as an
/// open.
fn complete_one(
    ctx: &mut WorkerContext,
    path: &Vec<u8>,
    items: &Vec<Node>,
    expect_dev: Option<u64>,
    include_empty: bool,
    reports: &mut Vec<Report>,
    descend: &mut Vec<bool>,
    Ghost(i): Ghost<int>,
    Ghost(h0): Ghost<Multiset<u64>>,
    Ghost(r0): Ghost<Multiset<(Seq<u8>, Errno)>>,
)
    requires
        old(ctx).engine.wf(),
        occupancy(old(ctx).engine.slots()) > 0,
        standing(
            old(ctx).engine.slots(),
            old(ctx).recorder@,
            reported(old(reports)@),
            old(descend)@,
            path@,
            items@,
            i,
            expect_dev,
            include_empty,
            h0,
            r0,
        ),
    ensures
        final(ctx).engine.wf(),
        final(ctx).engine.slots().len() == old(ctx).engine.slots().len(),
        final(ctx).buffer == old(ctx).buffer,
        work(final(ctx).engine.slots()) < work(old(ctx).engine.slots()),
        standing(
            final(ctx).engine.slots(),
            final(ctx).recorder@,
            reported(final(reports)@),
            final(descend)@,
            path@,
            items@,
            i,
            expect_dev,
            include_empty,
            h0,
            r0,
        ),
{
    let ghost slots0 = ctx.engine.slots();
    let ghost rec0 = ctx.recorder@;
    let ghost rep0 = reported(reports@);
    let ghost desc0 = descend@;
    let _ = ctx.flush();
    let tag = match ctx.engine.lowest_pending() {
        Some(tag) => tag,
        None => vstd::pervasive::unreached(),
    };
    let ghost slot = untag(tag)->Some_0.0 as int;
    let ghost op = slots0[slot]->Some_0;
    let ghost j = op.entry as int;
    proof {
        lemma_owed_update(path@, items@, slots0, slot, None, expect_dev, include_empty);
        lemma_work_update(slots0, slot, None);
    }
    let completion = match answer_for(items, tag, ctx) {
        Some(completion) => completion,
        None => vstd::pervasive::unreached(),
    };
    let done = match ctx.complete(tag, completion, expect_dev, include_empty) {
        Some(done) => done,
        None => vstd::pervasive::unreached(),
    };
    let ghost slots1 = ctx.engine.slots();
    let ghost local = local_tally(path@, items@[j], expect_dev, include_empty);
    let ghost owes0 = owed_sum(path@, items@, slots0, expect_dev, include_empty);
    let ghost owes1 = owed_sum(path@, items@, slots1, expect_dev, include_empty);
    assert(owes1.sizes.add(local.sizes) =~= owes0.sizes);
    assert(owes1.reports.add(local.reports) =~= owes0.reports);
    match done.route {
        Route::Record(size) => {
            proof {
                lemma_holders_after_removal(slots0, slot, desc0, desc0, items@, i, expect_dev, include_empty);
                assert(rec0.insert(kept(size)).add(owes1.sizes) =~= rec0.add(owes0.sizes));
                assert(rep0.add(owes1.reports) =~= rep0.add(owes0.reports));
            }
        },
        Route::Skip => {
            proof {
                lemma_holders_after_removal(slots0, slot, desc0, desc0, items@, i, expect_dev, include_empty);
                assert(rec0.add(owes1.sizes) =~= rec0.add(owes0.sizes));
                assert(rep0.add(owes1.reports) =~= rep0.add(owes0.reports));
            }
        },
        Route::Spawn(_) => {
            descend.set(done.entry, true);
            proof {
                lemma_holders_after_removal(slots0, slot, desc0, descend@, items@, i, expect_dev, include_empty);
                assert(rec0.add(owes1.sizes) =~= rec0.add(owes0.sizes));
                assert(rep0.add(owes1.reports) =~= rep0.add(owes0.reports));
            }
        },
        Route::Open => {
            let ghost reopened = PendingOperation { kind: OpKind::OpenDir, entry: done.entry, name: done.name };
            proof {
                assert(slots1[slot] is None);
            }
            match ctx.enqueue(OpKind::OpenDir, done.entry, done.name) {
                Ok(_) => {
                    let ghost slots2 = ctx.engine.slots();
                    proof {
                        let free = choose|f: int| 0 <= f < slots1.len() && slots1[f] is None
                            && slots2 == slots1.update(f, Some(reopened));
                        lemma_owed_update(path@, items@, slots1, free, Some(reopened), expect_dev, include_empty);
                        lemma_work_update(slots1, free, Some(reopened));
                        let owes2 = owed_sum(path@, items@, slots2, expect_dev, include_empty);
                        assert(owes2.sizes =~= owes0.sizes);
                        assert(owes2.reports =~= owes0.reports);
                        lemma_holders_after_requeue(slots0, slot, free, reopened, slots2, desc0, items@, i, expect_dev, include_empty);
                    }
                },
                Err(_) => vstd::pervasive::unreached(),
            }
        },
        Route::Report(e) => {
            let entry_path = path_join(path, &done.name);
            let ghost before = reports@;
            crate::traverse::report(reports, entry_path, e);
            proof {
                lemma_reported_push(before, reports@, entry_path@, e);
                lemma_holders_after_removal(slots0, slot, desc0, desc0, items@, i, expect_dev, include_empty);
                assert(rec0.add(owes1.sizes) =~= rec0.add(owes0.sizes));
                assert(rep0.insert((entry_path@, e)).add(owes1.reports) =~= rep0.add(owes0.reports));
            }
        },
        Route::Mismatch => vstd::pervasive::unreached(),
    }
}

/// Once the operation in `slot` has completed, every entered item is
/// marked or still pending, given that the completed item is accounted for.
proof fn lemma_holders_after_removal(
    slots: Seq<Option<PendingOperation>>,
    slot: int,
    marks_before: Seq<bool>,
    marks: Seq<bool>,
    items: Seq<Node>,
    i: int,
    expect_dev: Option<u64>,
    include_empty: bool,
)
    requires
        0 <= slot < slots.len(),
        slots[slot] is Some,
        0 <= i <= items.len(),
        marks.len() == marks_before.len() == items.len(),
        forall|j: int| 0 <= j < marks.len() && marks_before[j] ==> #[trigger] marks[j],
        spawns(items[slots[slot]->Some_0.entry as int], expect_dev, include_empty)
            ==> marks[slots[slot]->Some_0.entry as int],
        forall|j: int|
            0 <= j < i && spawns(#[trigger] items[j], expect_dev, include_empty)
                ==> marks_before[j] || exists|s: int| holds(slots, s, j),
    ensures
        forall|j: int|
            0 <= j < i && spawns(#[trigger] items[j], expect_dev, include_empty) ==> marks[j]
                || exists|s: int| holds(slots.update(slot, None), s, j),
{
    let after = slots.update(slot, None);
    assert forall|j: int|
        0 <= j < i && spawns(#[trigger] items[j], expect_dev, include_empty) implies marks[j]
        || exists|s: int| holds(after, s, j) by {
        if !marks[j] {
            let s = choose|s: int| holds(slots, s, j);
            assert(holds(after, s, j));
        }
    }
}

/// Once the lookup in `slot` has been queued again as an open in `free`,
/// every entered item is marked or still pending.
proof fn lemma_holders_after_requeue(
    slots: Seq<Option<PendingOperation>>,
    slot: int,
    free: int,
    reopened: PendingOperation,
    after: Seq<Option<PendingOperation>>,
    marks: Seq<bool>,
    items: Seq<Node>,
    i: int,
    expect_dev: Option<u64>,
    include_empty: bool,
)
    requires
        0 <= slot < slots.len(),
        0 <= free < slots.len(),
        slots[slot] is Some,
        reopened.entry == slots[slot]->Some_0.entry,
        slots.update(slot, None)[free] is None,
        after == slots.update(slot, None).update(free, Some(reopened)),
        0 <= i <= items.len(),
        marks.len() == items.len(),
        forall|j: int|
            0 <= j < i && spawns(#[trigger] items[j], expect_dev, include_empty) ==> marks[j]
                || exists|s: int| holds(slots, s, j),
    ensures
        forall|j: int|
            0 <= j < i && spawns(#[trigger] items[j], expect_dev, include_empty) ==> marks[j]
                || exists|s: int| holds(after, s, j),
{
    assert forall|j: int|
        0 <= j < i && spawns(#[trigger] items[j], expect_dev, include_empty) implies marks[j]
        || exists|s: int| holds(after, s, j) by {
        if !marks[j] {
            let s = choose|s: int| holds(slots, s, j);
            if s == slot {
                assert(holds(after, free, j));
            } else {
                assert(holds(after, s, j));
            }
        }
    }
}

/// Puts the entries of one listing through the ring: each entry is planned,
/// queued when there is room, and the ring is drained at the end. The
/// result marks the entries that the traversal enters.
pub(crate) fn run_items(
    ctx: &mut WorkerContext,
    path: &Vec<u8>,
    items: &Vec<Node>,
    expect_dev: Option<u64>,
    include_empty: bool,
    reports: &mut Vec<Report>,
) -> (descend: Vec<bool>)
    requires
        old(ctx).wf(),
        occupancy(old(ctx).slots()) == 0,
    ensures
        final(ctx).wf(),
        occupancy(final(ctx).slots()) == 0,
        final(ctx).slots().len() == old(ctx).slots().len(),
        final(ctx).buffer_capacity() == old(ctx).buffer_capacity(),
        final(ctx).recorded() == old(ctx).recorded().add(
            local_sum(path@, items@, items@.len() as int, expect_dev, include_empty).sizes,
        ),
        reported(final(reports)@) == reported(old(reports)@).add(
            local_sum(path@, items@, items@.len() as int, expect_dev, include_empty).reports,
        ),
        descend@.len() == items@.len(),
        forall|j: int|
            0 <= j < items@.len() ==> (#[trigger] descend@[j] <==> spawns(
                items@[j],
                expect_dev,
                include_empty,
            )),
{
    let ghost h0 = ctx.recorder@;
    let ghost r0 = reported(reports@);
    let ghost capacity = ctx.slots().len();
    let ghost buffer = ctx.buffer;
    let n = items.len();
    let mut descend: Vec<bool> = Vec::new();
    let mut k: usize = 0;
    while k < n
        invariant
            k <= n,
            descend@.len() == k,
            forall|j: int| 0 <= j < k ==> !(#[trigger] descend@[j]),
        decreases n - k,
    {
        descend.push(false);
        k += 1;
    }
    proof {
        lemma_owed_nothing(path@, items@, ctx.slots(), expect_dev, include_empty);
        crate::ring::lemma_occupancy_extremes(ctx.slots());
    }
    let mut i: usize = 0;
    while i < n
        invariant
            i <= n,
            n == items@.len(),
            ctx.wf(),
            ctx.slots().len() == capacity,
            ctx.buffer == buffer,
            standing(
                ctx.slots(),
                ctx.recorder@,
                reported(reports@),
                descend@,
                path@,
                items@,
                i as int,
                expect_dev,
                include_empty,
                h0,
                r0,
            ),
        decreases n - i,
    {
        let ghost slots0 = ctx.slots();
        let ghost rec0 = ctx.recorder@;
        let ghost rep0 = reported(reports@);
        let ghost owes0 = owed_sum(path@, items@, slots0, expect_dev, include_empty);
        let ghost due0 = local_sum(path@, items@, i as int, expect_dev, include_empty);
        let ghost due1 = local_sum(path@, items@, i + 1, expect_dev, include_empty);
        let ghost local = local_tally(path@, items@[i as int], expect_dev, include_empty);
        let node = &items[i];
        if is_dot_name(&node.name) {
            proof {
                assert(rec0.add(owes0.sizes) =~= h0.add(due1.sizes));
                assert(rep0.add(owes0.reports) =~= r0.add(due1.reports));
            }
        } else {
            match plan_entry(node.file_type, expect_dev) {
                Plan::Skip => {
                    proof {
                        assert(rec0.add(owes0.sizes) =~= h0.add(due1.sizes));
                        assert(rep0.add(owes0.reports) =~= r0.add(due1.reports));
                    }
                },
                Plan::Report(e) => {
                    let entry_path = path_join(path, &node.name);
                    let ghost before = reports@;
                    crate::traverse::report(reports, entry_path, e);
                    proof {
                        lemma_reported_push(before, reports@, entry_path@, e);
                        assert(rec0.add(owes0.sizes) =~= h0.add(due1.sizes));
                        assert(r0.add(due1.reports) =~= r0.add(due0.reports).insert(
                            (entry_path@, e),
                        ));
                        assert(rep0.insert((entry_path@, e)).add(owes0.reports) =~= r0.add(
                            due1.reports,
                        ));
                    }
                },
                Plan::Enqueue(kind) => {
                    while ctx.is_full()
                        invariant
                            i < n,
                            n == items@.len(),
                            ctx.wf(),
                            ctx.slots().len() == capacity,
                            ctx.buffer == buffer,
                            standing(
                                ctx.slots(),
                                ctx.recorder@,
                                reported(reports@),
                                descend@,
                                path@,
                                items@,
                                i as int,
                                expect_dev,
                                include_empty,
                                h0,
                                r0,
                            ),
                        decreases work(ctx.slots()),
                    {
                        complete_one(
                            ctx,
                            path,
                            items,
                            expect_dev,
                            include_empty,
                            reports,
                            &mut descend,
                            Ghost(i as int),
                            Ghost(h0),
                            Ghost(r0),
                        );
                    }
                    let ghost slots1 = ctx.slots();
                    let ghost rec1 = ctx.recorder@;
                    let ghost rep1 = reported(reports@);
                    let ghost owes1 = owed_sum(path@, items@, slots1, expect_dev, include_empty);
                    let name = crate::traverse::path_copy(&node.name);
                    let ghost op = PendingOperation { kind, entry: i, name };
                    match ctx.enqueue(kind, i, name) {
                        Ok(_) => {
                            let ghost slots2 = ctx.slots();
                            proof {
                                let free = choose|f: int|
                                    0 <= f < slots1.len() && slots1[f] is None && slots2
                                        == slots1.update(f, Some(op));
                                lemma_owed_update(path@, items@, slots1, free, Some(op), expect_dev, include_empty);
                                let owes2 = owed_sum(path@, items@, slots2, expect_dev, include_empty);
                                assert(owes2.sizes =~= owes1.sizes.add(local.sizes));
                                assert(owes2.reports =~= owes1.reports.add(local.reports));
                                assert(rec1.add(owes2.sizes) =~= rec1.add(owes1.sizes).add(
                                    local.sizes,
                                ));
                                assert(rep1.add(owes2.reports) =~= rep1.add(owes1.reports).add(
                                    local.reports,
                                ));
                                assert(rec1.add(owes2.sizes) =~= h0.add(due1.sizes));
                                assert(rep1.add(owes2.reports) =~= r0.add(due1.reports));
                                lemma_standing_queued(slots1, free, op, descend@, items@, i as int, expect_dev, include_empty);
                            }
                        },
                        Err(_) => vstd::pervasive::unreached(),
                    }
                },
            }
        }
        i += 1;
    }
    while !ctx.engine.is_drained()
        invariant
            n == items@.len(),
            ctx.wf(),
            ctx.slots().len() == capacity,
            ctx.buffer == buffer,
            standing(
                ctx.slots(),
                ctx.recorder@,
                reported(reports@),
                descend@,
                path@,
                items@,
                n as int,
                expect_dev,
                include_empty,
                h0,
                r0,
            ),
        decreases work(ctx.slots()),
    {
        complete_one(
            ctx,
            path,
            items,
            expect_dev,
            include_empty,
            reports,
            &mut descend,
            Ghost(n as int),
            Ghost(h0),
            Ghost(r0),
        );
    }
    proof {
        lemma_owed_nothing(path@, items@, ctx.slots(), expect_dev, include_empty);
        crate::ring::lemma_occupancy_extremes(ctx.slots());
        assert forall|j: int| 0 <= j < items@.len() implies (#[trigger] descend@[j] <==> spawns(
            items@[j],
            expect_dev,
            include_empty,
        )) by {}
    }
    descend
}

/// Queuing the operation of item `i` in a free slot leaves every entered
/// item marked or pending.
proof fn lemma_standing_queued(
    slots: Seq<Option<PendingOperation>>,
    free: int,
    op: PendingOperation,
    marks: Seq<bool>,
    items: Seq<Node>,
    i: int,
    expect_dev: Option<u64>,
    include_empty: bool,
)
    requires
        0 <= i < items.len(),
        0 <= free < slots.len(),
        slots[free] is None,
        op.entry == i,
        marks.len() == items.len(),
        forall|j: int|
            0 <= j < i && spawns(#[trigger] items[j], expect_dev, include_empty) ==> marks[j]
                || exists|s: int| holds(slots, s, j),
    ensures
        forall|j: int|
            0 <= j < i + 1 && spawns(#[trigger] items[j], expect_dev, include_empty) ==> marks[j]
                || exists|s: int| holds(slots.update(free, Some(op)), s, j),
{
    let after = slots.update(free, Some(op));
    assert forall|j: int|
        0 <= j < i + 1 && spawns(#[trigger] items[j], expect_dev, include_empty) implies marks[j]
        || exists|s: int| holds(after, s, j) by {
        if j == i {
            assert(holds(after, free, j));
        } else if !marks[j] {
            let s = choose|s: int| holds(slots, s, j);
            assert(holds(after, s, j));
        }
    }
}

} // verus!
