//! The ring of in-flight operations: a fixed number of slots, an occupancy
//! mask, and the rule that a new operation takes the lowest free slot.

use vstd::prelude::*;

verus! {

/// The largest capacity a ring can have: one bit of the mask per slot.
pub const MAX_SLOTS: usize = 64;

/// What an operation asks of the file system.
#[derive(Clone, Copy, Debug, PartialEq, Eq, Structural)]
pub enum OpKind {
    /// Look up the metadata of a file.
    Stat,
    /// Open a directory for traversal.
    OpenDir,
}

/// An operation that waits in a slot for its completion. The slot owns the
/// name, so the name outlives the enumeration that produced it.
#[derive(Debug)]
pub struct PendingOperation {
    pub kind: OpKind,
    /// The position of the entry in its directory's enumeration.
    pub entry: usize,
    /// The entry's name.
    pub name: Vec<u8>,
}

/// Whether bit `i` of `mask` is set.
pub open spec fn bit(mask: u64, i: u64) -> bool {
    (mask >> i) & 1 == 1
}

/// The capacities a ring can be made with: the powers of two up to 64.
pub open spec fn valid_capacity(capacity: int) -> bool {
    capacity == 1 || capacity == 2 || capacity == 4 || capacity == 8 || capacity == 16
        || capacity == 32 || capacity == 64
}

/// The number of occupied slots.
pub open spec fn occupancy(slots: Seq<Option<PendingOperation>>) -> nat
    decreases slots.len(),
{
    if slots.len() == 0 {
        0
    } else {
        occupancy(slots.drop_last()) + if slots.last() is Some {
            1nat
        } else {
            0nat
        }
    }
}

/// Whether `slot` is the lowest-numbered free slot.
pub open spec fn is_lowest_free(slots: Seq<Option<PendingOperation>>, slot: int) -> bool {
    &&& 0 <= slot < slots.len()
    &&& slots[slot] is None
    &&& forall|j: int| 0 <= j < slot ==> (#[trigger] slots[j]) is Some
}

/// Whether every slot is occupied.
pub open spec fn all_occupied(slots: Seq<Option<PendingOperation>>) -> bool {
    forall|j: int| 0 <= j < slots.len() ==> (#[trigger] slots[j]) is Some
}

/// Whether `slot` is the lowest-numbered occupied slot.
pub open spec fn is_lowest_occupied(slots: Seq<Option<PendingOperation>>, slot: int) -> bool {
    &&& 0 <= slot < slots.len()
    &&& slots[slot] is Some
    &&& forall|j: int| 0 <= j < slot ==> (#[trigger] slots[j]) is None
}

/// Whether no slot is occupied.
pub open spec fn none_occupied(slots: Seq<Option<PendingOperation>>) -> bool {
    forall|j: int| 0 <= j < slots.len() ==> (#[trigger] slots[j]) is None
}

/// Occupancy never exceeds the number of slots.
pub proof fn lemma_occupancy_bounded(slots: Seq<Option<PendingOperation>>)
    ensures
        occupancy(slots) <= slots.len(),
    decreases slots.len(),
{
    if slots.len() > 0 {
        lemma_occupancy_bounded(slots.drop_last());
    }
}

/// Filling or emptying one slot changes the occupancy by that slot alone.
pub proof fn lemma_occupancy_update(
    slots: Seq<Option<PendingOperation>>,
    i: int,
    value: Option<PendingOperation>,
)
    requires
        0 <= i < slots.len(),
    ensures
        occupancy(slots.update(i, value)) + (if slots[i] is Some {
            1nat
        } else {
            0nat
        }) == occupancy(slots) + (if value is Some {
            1nat
        } else {
            0nat
        }),
    decreases slots.len(),
{
    let updated = slots.update(i, value);
    if i == slots.len() - 1 {
        assert(updated.drop_last() == slots.drop_last());
    } else {
        assert(updated.drop_last() == slots.drop_last().update(i, value));
        lemma_occupancy_update(slots.drop_last(), i, value);
    }
}

/// The occupancy is zero exactly when no slot is occupied, and equals the
/// number of slots exactly when all are.
pub proof fn lemma_occupancy_extremes(slots: Seq<Option<PendingOperation>>)
    ensures
        occupancy(slots) == 0 <==> none_occupied(slots),
        occupancy(slots) == slots.len() <==> all_occupied(slots),
    decreases slots.len(),
{
    if slots.len() > 0 {
        let init = slots.drop_last();
        lemma_occupancy_extremes(init);
        lemma_occupancy_bounded(init);
        if none_occupied(slots) {
            assert forall|j: int| 0 <= j < init.len() implies (#[trigger] init[j]) is None by {}
        }
        if occupancy(slots) == 0 {
            assert forall|j: int| 0 <= j < slots.len() implies (#[trigger] slots[j]) is None by {
                if j < init.len() {
                    assert(init[j] is None);
                }
            }
        }
        if all_occupied(slots) {
            assert forall|j: int| 0 <= j < init.len() implies (#[trigger] init[j]) is Some by {}
        }
        if occupancy(slots) == slots.len() {
            assert forall|j: int| 0 <= j < slots.len() implies (#[trigger] slots[j]) is Some by {
                if j < init.len() {
                    assert(init[j] is Some);
                }
            }
        }
    }
}

/// A fixed-capacity table of pending operations.
pub struct OperationRing {
    mask: u64,
    slots: Vec<Option<PendingOperation>>,
    pending: usize,
}

impl View for OperationRing {
    type V = Seq<Option<PendingOperation>>;

    closed spec fn view(&self) -> Seq<Option<PendingOperation>> {
        self.slots@
    }
}

impl OperationRing {
    /// The ring's invariant: the capacity is a power of two up to 64, bit
    /// `i` of the mask is set exactly when slot `i` is occupied, and the
    /// count of pending operations is the number of occupied slots.
    pub closed spec fn wf(&self) -> bool {
        &&& valid_capacity(self.slots.len() as int)
        &&& forall|i: u64|
            0 <= i < 64 ==> (#[trigger] bit(self.mask, i) <==> (i < self.slots.len()
                && self.slots[i as int] is Some))
        &&& self.pending == occupancy(self.slots@)
    }

    /// The occupancy mask.
    pub closed spec fn spec_mask(&self) -> u64 {
        self.mask
    }

    /// In a well-formed ring the mask mirrors the slots, and the capacity
    /// is one that a ring can have.
    pub proof fn lemma_mask_mirrors_slots(&self)
        requires
            self.wf(),
        ensures
            valid_capacity(self@.len() as int),
            forall|i: u64|
                0 <= i < 64 ==> (#[trigger] bit(self.spec_mask(), i) <==> (i < self@.len()
                    && self@[i as int] is Some)),
    {
    }

    /// A ring of `capacity` free slots, where `capacity` is a power of two
    /// up to 64; `None` for any other capacity.
    pub fn new(capacity: usize) -> (ring: Option<OperationRing>)
        ensures
            ring is Some <==> valid_capacity(capacity as int),
            ring matches Some(r) ==> r.wf() && r@.len() == capacity && none_occupied(r@),
    {
        if !(capacity == 1 || capacity == 2 || capacity == 4 || capacity == 8 || capacity == 16
            || capacity == 32 || capacity == 64) {
            return None;
        }
        let mut slots: Vec<Option<PendingOperation>> = Vec::new();
        let mut i: usize = 0;
        while i < capacity
            invariant
                i <= capacity,
                slots.len() == i,
                forall|j: int| 0 <= j < i ==> (#[trigger] slots[j]) is None,
            decreases capacity - i,
        {
            slots.push(None);
            i += 1;
        }
        proof {
            lemma_occupancy_extremes(slots@);
            assert forall|i: u64| 0 <= i < 64 implies !(#[trigger] bit(0u64, i)) by {
                assert((0u64 >> i) & 1 == 0) by (bit_vector);
            }
        }
        Some(OperationRing { mask: 0, slots, pending: 0 })
    }

    /// The number of slots.
    pub fn capacity(&self) -> (n: usize)
        requires
            self.wf(),
        ensures
            n == self@.len(),
            valid_capacity(n as int),
    {
        self.slots.len()
    }

    /// The number of occupied slots.
    pub fn pending(&self) -> (n: usize)
        requires
            self.wf(),
        ensures
            n == occupancy(self@),
            n <= self@.len(),
    {
        proof {
            lemma_occupancy_bounded(self@);
        }
        self.pending
    }

    /// Whether no slot is free.
    pub fn is_full(&self) -> (full: bool)
        requires
            self.wf(),
        ensures
            full == all_occupied(self@),
            full == (occupancy(self@) == self@.len()),
    {
        proof {
            lemma_occupancy_extremes(self@);
        }
        self.pending == self.slots.len()
    }

    /// Whether no slot is occupied.
    pub fn is_empty(&self) -> (empty: bool)
        requires
            self.wf(),
        ensures
            empty == none_occupied(self@),
            empty == (occupancy(self@) == 0),
    {
        proof {
            lemma_occupancy_extremes(self@);
        }
        self.pending == 0
    }

    /// Whether `slot` holds a pending operation.
    pub fn is_occupied(&self, slot: usize) -> (occupied: bool)
        requires
            self.wf(),
        ensures
            occupied == (slot < self@.len() && self@[slot as int] is Some),
    {
        if slot >= self.slots.len() {
            return false;
        }
        let probe: u64 = 1u64 << (slot as u64);
        let mask = self.mask;
        proof {
            let s = slot as u64;
            assert(((mask & (1u64 << s)) != 0) == ((mask >> s) & 1 == 1)) by (bit_vector)
                requires
                    s < 64,
            ;
            assert(bit(mask, s) <==> (s < self.slots.len() && self.slots[s as int] is Some));
        }
        (mask & probe) != 0
    }

    /// The kind of the operation in `slot`, if the slot holds one.
    pub fn kind_at(&self, slot: usize) -> (kind: Option<OpKind>)
        requires
            self.wf(),
        ensures
            kind == (if slot < self@.len() && self@[slot as int] is Some {
                Some(self@[slot as int]->Some_0.kind)
            } else {
                None
            }),
    {
        if slot >= self.slots.len() {
            return None;
        }
        match &self.slots[slot] {
            Some(op) => Some(op.kind),
            None => None,
        }
    }

    /// The kind and the entry of the operation in `slot`, if it holds one.
    pub fn operation_at(&self, slot: usize) -> (held: Option<(OpKind, usize)>)
        requires
            self.wf(),
        ensures
            held == (if slot < self@.len() && self@[slot as int] is Some {
                let op = self@[slot as int]->Some_0;
                Some((op.kind, op.entry))
            } else {
                None
            }),
    {
        if slot >= self.slots.len() {
            return None;
        }
        match &self.slots[slot] {
            Some(op) => Some((op.kind, op.entry)),
            None => None,
        }
    }

    /// The lowest-numbered free slot, if any slot is free.
    pub fn lowest_free(&self) -> (slot: Option<usize>)
        requires
            self.wf(),
        ensures
            match slot {
                Some(s) => is_lowest_free(self@, s as int),
                None => all_occupied(self@),
            },
    {
        let ones = self.mask.trailing_ones();
        proof {
            vstd::std_specs::bits::axiom_u64_trailing_ones(self.mask);
            let t = ones as u64;
            assert forall|j: int| 0 <= j < t && j < self.slots.len() implies (
            #[trigger] self.slots@[j]) is Some by {
                let ju = j as u64;
                assert(bit(self.mask, ju));
            }
            if t < 64 {
                assert(!bit(self.mask, t));
            }
        }
        if (ones as usize) < self.slots.len() {
            Some(ones as usize)
        } else {
            None
        }
    }

    /// The lowest-numbered occupied slot, if any slot is occupied.
    pub fn lowest_occupied(&self) -> (slot: Option<usize>)
        requires
            self.wf(),
        ensures
            match slot {
                Some(s) => is_lowest_occupied(self@, s as int),
                None => none_occupied(self@),
            },
    {
        let zeros = self.mask.trailing_zeros();
        proof {
            vstd::std_specs::bits::axiom_u64_trailing_zeros(self.mask);
            let t = zeros as u64;
            assert forall|j: int| 0 <= j < t && j < self.slots.len() implies (
            #[trigger] self.slots@[j]) is None by {
                let ju = j as u64;
                assert(!bit(self.mask, ju));
            }
            if t < 64 {
                assert(bit(self.mask, t));
            }
        }
        if (zeros as usize) < self.slots.len() {
            Some(zeros as usize)
        } else {
            None
        }
    }

    /// Puts `op` into the lowest-numbered free slot and returns that slot.
    /// A full ring is left as it is and hands `op` back.
    pub fn insert(&mut self, op: PendingOperation) -> (result: Result<usize, PendingOperation>)
        requires
            old(self).wf(),
        ensures
            final(self).wf(),
            match result {
                Ok(slot) => {
                    &&& is_lowest_free(old(self)@, slot as int)
                    &&& final(self)@ == old(self)@.update(slot as int, Some(op))
                    &&& occupancy(final(self)@) == occupancy(old(self)@) + 1
                },
                Err(back) => {
                    &&& all_occupied(old(self)@)
                    &&& final(self)@ == old(self)@
                    &&& back == op
                },
            },
    {
        match self.lowest_free() {
            None => Err(op),
            Some(slot) => {
                let ghost before = self.slots@;
                let ghost old_mask = self.mask;
                proof {
                    lemma_occupancy_update(before, slot as int, Some(op));
                    lemma_occupancy_bounded(before.update(slot as int, Some(op)));
                }
                self.mask = self.mask | (1u64 << (slot as u64));
                self.slots.set(slot, Some(op));
                self.pending = self.pending + 1;
                proof {
                    let s = slot as u64;
                    let new_mask = self.mask;
                    assert forall|i: u64| 0 <= i < 64 implies (#[trigger] bit(new_mask, i) <==> (i
                        < self.slots.len() && self.slots[i as int] is Some)) by {
                        assert(bit(old_mask, i) <==> (i < before.len() && before[i as int] is Some));
                        assert((((old_mask | (1u64 << s)) >> i) & 1 == 1) == (i == s || ((old_mask
                            >> i) & 1 == 1))) by (bit_vector)
                            requires
                                s < 64,
                                i < 64,
                        ;
                    }
                }
                Ok(slot)
            },
        }
    }

    /// Takes the operation out of `slot` and frees the slot. Where `slot`
    /// is no slot of the ring, or holds nothing, the ring is left as it is
    /// and nothing is handed out.
    pub fn complete(&mut self, slot: usize) -> (op: Option<PendingOperation>)
        requires
            old(self).wf(),
        ensures
            final(self).wf(),
            if slot < old(self)@.len() && old(self)@[slot as int] is Some {
                &&& op == old(self)@[slot as int]
                &&& final(self)@ == old(self)@.update(slot as int, None)
                &&& occupancy(final(self)@) + 1 == occupancy(old(self)@)
            } else {
                &&& op is None
                &&& final(self)@ == old(self)@
            },
    {
        if !self.is_occupied(slot) {
            return None;
        }
        let ghost before = self.slots@;
        let ghost old_mask = self.mask;
        proof {
            lemma_occupancy_update(before, slot as int, None);
        }
        let mut taken: Option<PendingOperation> = None;
        self.slots.set_and_swap(slot, &mut taken);
        self.mask = self.mask & !(1u64 << (slot as u64));
        self.pending = self.pending - 1;
        proof {
            let s = slot as u64;
            let new_mask = self.mask;
            assert forall|i: u64| 0 <= i < 64 implies (#[trigger] bit(new_mask, i) <==> (i
                < self.slots.len() && self.slots[i as int] is Some)) by {
                assert(bit(old_mask, i) <==> (i < before.len() && before[i as int] is Some));
                assert((((old_mask & !(1u64 << s)) >> i) & 1 == 1) == (i != s && ((old_mask >> i)
                    & 1 == 1))) by (bit_vector)
                    requires
                        s < 64,
                        i < 64,
                ;
            }
        }
        taken
    }
}

} // verus!
