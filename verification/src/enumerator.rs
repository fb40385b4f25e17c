//! The entry enumerator: it turns what the listing call returns into the
//! directory's entries, grows the buffer when the call finds it too small,
//! and leaves out the entries `.` and `..`.

use crate::entry::{Errno, FileType};
use vstd::prelude::*;

verus! {

/// One entry of a directory, as the listing yields it: its name, and its
/// kind or the error of asking for the kind.
#[derive(Debug)]
pub struct Entry {
    pub name: Vec<u8>,
    pub file_type: Result<FileType, Errno>,
}

/// The byte `.`.
pub const DOT: u8 = 0x2e;

/// Whether `name` is `.` or `..`, the directory itself or its parent.
pub open spec fn is_dot(name: Seq<u8>) -> bool {
    (name.len() == 1 && name[0] == DOT) || (name.len() == 2 && name[0] == DOT && name[1] == DOT)
}

/// Computes [`is_dot`].
pub fn is_dot_name(name: &Vec<u8>) -> (dot: bool)
    ensures
        dot == is_dot(name@),
{
    (name.len() == 1 && name[0] == DOT) || (name.len() == 2 && name[0] == DOT && name[1] == DOT)
}

/// What one call of the listing returned.
#[derive(Debug)]
pub enum ListEvent {
    /// The next entry.
    Entry(Entry),
    /// The buffer cannot hold the next entry; the position is unchanged.
    TooSmall,
    /// No entry is left.
    End,
    /// The listing failed.
    Failed(Errno),
}

/// What the enumerator makes of an event.
#[derive(Debug)]
pub enum Step {
    /// This entry is the next of the directory.
    Yield(Entry),
    /// The entry was `.` or `..` and is left out.
    Skip,
    /// Call the listing again, from where it stands, with a buffer of this
    /// capacity.
    Retry(usize),
    /// The directory is exhausted.
    Done,
    /// The enumeration of this directory ends with this error.
    Abort(Errno),
}

/// The capacity after growing: twice the capacity, at least one byte, and
/// no more than `usize::MAX`.
pub open spec fn grown(capacity: usize) -> usize {
    if capacity == 0 {
        1
    } else if capacity <= usize::MAX / 2 {
        (2 * capacity) as usize
    } else {
        usize::MAX
    }
}

/// The enumerator's state after an event, and the step it takes: the
/// capacity, whether the enumeration has ended, and the step.
pub open spec fn step_of(capacity: usize, ended: bool, event: ListEvent) -> (usize, bool, Step) {
    if ended {
        (capacity, true, Step::Done)
    } else {
        match event {
            ListEvent::Entry(entry) => if is_dot(entry.name@) {
                (capacity, false, Step::Skip)
            } else {
                (capacity, false, Step::Yield(entry))
            },
            ListEvent::TooSmall => (grown(capacity), false, Step::Retry(grown(capacity))),
            ListEvent::End => (capacity, true, Step::Done),
            ListEvent::Failed(e) => (capacity, true, Step::Abort(e)),
        }
    }
}

/// The enumeration of one directory: the capacity of its buffer, and
/// whether it has ended. Once ended it does not start again.
#[derive(Debug)]
pub struct Enumerator {
    capacity: usize,
    ended: bool,
}

impl Enumerator {
    /// The capacity of the buffer that the next listing call gets.
    pub closed spec fn spec_capacity(&self) -> usize {
        self.capacity
    }

    /// Whether the enumeration has ended.
    pub closed spec fn spec_ended(&self) -> bool {
        self.ended
    }

    /// An enumeration that starts with a buffer of `capacity` bytes.
    pub fn new(capacity: usize) -> (e: Enumerator)
        ensures
            e.spec_capacity() == capacity,
            !e.spec_ended(),
    {
        Enumerator { capacity, ended: false }
    }

    /// The capacity of the buffer that the next listing call gets.
    #[verifier::when_used_as_spec(spec_capacity)]
    pub fn capacity(&self) -> (c: usize)
        ensures
            c == self.spec_capacity(),
    {
        self.capacity
    }

    /// Whether the enumeration has ended.
    #[verifier::when_used_as_spec(spec_ended)]
    pub fn ended(&self) -> (b: bool)
        ensures
            b == self.spec_ended(),
    {
        self.ended
    }

    /// Takes what the listing call returned and says what follows from it,
    /// as [`step_of`] defines it.
    pub fn on_listed(&mut self, event: ListEvent) -> (step: Step)
        ensures
            (final(self).spec_capacity(), final(self).spec_ended(), step) == step_of(
                old(self).spec_capacity(),
                old(self).spec_ended(),
                event,
            ),
    {
        if self.ended {
            return Step::Done;
        }
        match event {
            ListEvent::Entry(entry) => {
                if is_dot_name(&entry.name) {
                    Step::Skip
                } else {
                    Step::Yield(entry)
                }
            },
            ListEvent::TooSmall => {
                let capacity = grow(self.capacity);
                self.capacity = capacity;
                Step::Retry(capacity)
            },
            ListEvent::End => {
                self.ended = true;
                Step::Done
            },
            ListEvent::Failed(e) => {
                self.ended = true;
                Step::Abort(e)
            },
        }
    }
}

/// Computes [`grown`].
pub fn grow(capacity: usize) -> (larger: usize)
    ensures
        larger == grown(capacity),
        capacity < usize::MAX ==> larger > capacity,
{
    if capacity == 0 {
        1
    } else if capacity <= usize::MAX / 2 {
        2 * capacity
    } else {
        usize::MAX
    }
}

/// The bytes that the record of an entry takes in the buffer: a fixed
/// header, the name, and the byte that ends the name.
pub open spec fn record_bytes(name: Seq<u8>) -> nat {
    (RECORD_HEADER + name.len() + 1) as nat
}

/// The bytes of a record before the name.
pub const RECORD_HEADER: usize = 19;

/// What a listing call returns for a directory that holds `entries`, read
/// up to `pos`, into a buffer of `capacity` bytes.
pub open spec fn listing_event(entries: Seq<Entry>, pos: int, capacity: usize) -> ListEvent {
    if pos >= entries.len() {
        ListEvent::End
    } else if record_bytes(entries[pos].name@) > capacity {
        ListEvent::TooSmall
    } else {
        ListEvent::Entry(entries[pos])
    }
}

/// The entries that an enumeration yields for a directory that holds
/// `entries`, from position `pos` on, starting with `capacity` bytes.
pub open spec fn enumerated(entries: Seq<Entry>, pos: int, capacity: usize) -> Seq<Entry>
    decreases entries.len() - pos, usize::MAX - capacity,
{
    if pos < 0 {
        Seq::empty()
    } else {
        let (next_capacity, _, step) = step_of(
            capacity,
            false,
            listing_event(entries, pos, capacity),
        );
        match step {
            Step::Yield(entry) => seq![entry] + enumerated(entries, pos + 1, next_capacity),
            Step::Skip => enumerated(entries, pos + 1, next_capacity),
            Step::Retry(_) => if next_capacity > capacity {
                enumerated(entries, pos, next_capacity)
            } else {
                Seq::empty()
            },
            _ => Seq::empty(),
        }
    }
}

/// The entries of `entries` from `pos` on that are neither `.` nor `..`.
pub open spec fn kept(entries: Seq<Entry>, pos: int) -> Seq<Entry>
    decreases entries.len() - pos,
{
    if pos < 0 || pos >= entries.len() {
        Seq::empty()
    } else if is_dot(entries[pos].name@) {
        kept(entries, pos + 1)
    } else {
        seq![entries[pos]] + kept(entries, pos + 1)
    }
}

/// However small the buffer is at first, the enumeration yields every
/// entry but `.` and `..`, each once and in the directory's order, as long
/// as the record of each entry fits in a buffer at all.
pub proof fn lemma_enumeration_complete(entries: Seq<Entry>, pos: int, capacity: usize)
    requires
        0 <= pos,
        forall|i: int| 0 <= i < entries.len() ==> record_bytes(#[trigger] entries[i].name@) <= usize::MAX,
    ensures
        enumerated(entries, pos, capacity) == kept(entries, pos),
    decreases entries.len() - pos, usize::MAX - capacity,
{
    if pos < entries.len() {
        if record_bytes(entries[pos].name@) > capacity {
            lemma_enumeration_complete(entries, pos, grown(capacity));
        } else {
            lemma_enumeration_complete(entries, pos + 1, capacity);
        }
    }
}

/// The number of entries that an enumeration yields is the number of the
/// directory's entries that are neither `.` nor `..`.
pub proof fn lemma_kept_count(entries: Seq<Entry>, pos: int)
    requires
        0 <= pos <= entries.len(),
    ensures
        kept(entries, pos).len() <= entries.len() - pos,
        (forall|i: int| pos <= i < entries.len() ==> !is_dot(#[trigger] entries[i].name@))
            ==> kept(entries, pos).len() == entries.len() - pos,
    decreases entries.len() - pos,
{
    if pos < entries.len() {
        lemma_kept_count(entries, pos + 1);
    }
}

} // verus!
