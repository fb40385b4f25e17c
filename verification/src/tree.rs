//! A directory tree as plain values: for every entry, what the file system
//! answers when it is asked for the entry's kind, its metadata and, for a
//! directory, its listing.

use crate::entry::{Errno, FileType, Stat};
use crate::enumerator::is_dot;
use crate::policy::{entry_verdict, Verdict};
use vstd::prelude::*;

verus! {

/// One entry of a directory, with the file system's answers about it.
#[derive(Debug)]
pub struct Node {
    /// The entry's name within its directory.
    pub name: Vec<u8>,
    /// The answer to a lookup of the kind.
    pub file_type: Result<FileType, Errno>,
    /// The answer to a lookup of the metadata.
    pub metadata: Result<Stat, Errno>,
    /// The answer to opening the entry as a directory: what its listing
    /// yields, or the error of the open.
    pub listing: Result<Listing, Errno>,
}

/// What the listing of an open directory returns: the entries up to the
/// point where the listing ended, and the error that ended it if it did not
/// end by itself.
#[derive(Debug)]
pub struct Listing {
    pub entries: Vec<Node>,
    pub failure: Option<Errno>,
}

/// The directory that a traversal starts at.
#[derive(Debug)]
pub struct Root {
    /// The path that the root was named by.
    pub path: Vec<u8>,
    /// The answer to a lookup of the root's metadata.
    pub metadata: Result<Stat, Errno>,
    /// The answer to opening the root.
    pub listing: Result<Listing, Errno>,
    /// Whether the platform gives device numbers in its metadata.
    pub device_ids: bool,
}

/// An error that the traversal met, with the path it met it at.
#[derive(Debug)]
pub struct Report {
    pub path: Vec<u8>,
    pub error: Errno,
}

impl View for Report {
    type V = (Seq<u8>, Errno);

    open spec fn view(&self) -> (Seq<u8>, Errno) {
        (self.path@, self.error)
    }
}

/// The views of a sequence of reports.
pub open spec fn reports_view(reports: Seq<Report>) -> Seq<(Seq<u8>, Errno)> {
    reports.map_values(|r: Report| r@)
}

/// The byte that separates the components of a path.
pub const SEPARATOR: u8 = 0x2f;

/// The path of the entry `name` in the directory `parent`.
pub open spec fn join(parent: Seq<u8>, name: Seq<u8>) -> Seq<u8> {
    parent.push(SEPARATOR) + name
}

/// What a traversal yields: the sizes it records and the errors it reports,
/// each in the order of a depth-first walk.
pub struct Outcome {
    pub sizes: Seq<u64>,
    pub reports: Seq<(Seq<u8>, Errno)>,
}

impl Outcome {
    /// Nothing recorded, nothing reported.
    pub open spec fn nothing() -> Outcome {
        Outcome { sizes: Seq::empty(), reports: Seq::empty() }
    }

    /// One recorded size.
    pub open spec fn recorded(size: u64) -> Outcome {
        Outcome { sizes: seq![size], reports: Seq::empty() }
    }

    /// One reported error.
    pub open spec fn reported(path: Seq<u8>, error: Errno) -> Outcome {
        Outcome { sizes: Seq::empty(), reports: seq![(path, error)] }
    }

    /// The report of the error that cut a listing short, if one did.
    pub open spec fn cut_short(path: Seq<u8>, failure: Option<Errno>) -> Outcome {
        match failure {
            Some(e) => Outcome::reported(path, e),
            None => Outcome::nothing(),
        }
    }

    /// This outcome, followed by `next`.
    pub open spec fn followed_by(self, next: Outcome) -> Outcome {
        Outcome { sizes: self.sizes + next.sizes, reports: self.reports + next.reports }
    }
}

/// The outcome of traversing the directory at `path` whose opening answers
/// `listing`.
///
/// A directory that cannot be opened is reported once, at its own path, and
/// nothing below it is visited. A listing that fails on the way is reported
/// at the directory's path too, after the entries that it did yield.
pub open spec fn walk_listing(
    path: Seq<u8>,
    listing: Result<Listing, Errno>,
    expect_dev: Option<u64>,
    include_empty: bool,
) -> Outcome
    decreases listing, 0int,
{
    match listing {
        Err(e) => Outcome::reported(path, e),
        Ok(found) => walk_entries(path, found.entries@, expect_dev, include_empty).followed_by(
            Outcome::cut_short(path, found.failure),
        ),
    }
}

/// The outcome of the entries of one listing, one after the other.
pub open spec fn walk_entries(
    path: Seq<u8>,
    entries: Seq<Node>,
    expect_dev: Option<u64>,
    include_empty: bool,
) -> Outcome
    decreases entries, entries.len(),
{
    if entries.len() == 0 {
        Outcome::nothing()
    } else {
        walk_entries(path, entries.drop_last(), expect_dev, include_empty).followed_by(
            walk_entry(path, entries.last(), expect_dev, include_empty),
        )
    }
}

/// The outcome of one entry of the directory at `path`: the entries `.`
/// and `..` are passed over; any other is skipped, recorded, traversed or
/// reported at its own path, as the verdict on it says.
pub open spec fn walk_entry(
    path: Seq<u8>,
    node: Node,
    expect_dev: Option<u64>,
    include_empty: bool,
) -> Outcome
    decreases node, 0int,
{
    let entry_path = join(path, node.name@);
    if is_dot(node.name@) {
        Outcome::nothing()
    } else {
        match entry_verdict(node.file_type, node.metadata, expect_dev, include_empty) {
            Verdict::Record(size) => Outcome::recorded(size),
            Verdict::Descend => walk_listing(entry_path, node.listing, expect_dev, include_empty),
            Verdict::Report(e) => Outcome::reported(entry_path, e),
            _ => Outcome::nothing(),
        }
    }
}

/// Whether a directory answers every question put to it, within one device:
/// it can be opened, its listing ends by itself and holds neither `.` nor
/// `..`, the kind and the metadata of every entry are at hand and agree,
/// every entry lies on the expected device where one is expected, and every
/// subdirectory is readable in the same way. The entries may be of any
/// kind: directories, regular files, links and special files.
pub open spec fn readable_listing(listing: Result<Listing, Errno>, expect_dev: Option<u64>) -> bool
    decreases listing, 0int,
{
    match listing {
        Err(_) => false,
        Ok(found) => found.failure is None && readable_entries(found.entries@, expect_dev),
    }
}

/// [`readable_listing`] for the entries of one listing.
pub open spec fn readable_entries(entries: Seq<Node>, expect_dev: Option<u64>) -> bool
    decreases entries, entries.len(),
{
    entries.len() == 0 || (readable_entries(entries.drop_last(), expect_dev) && readable_entry(
        entries.last(),
        expect_dev,
    ))
}

/// [`readable_listing`] for one entry.
pub open spec fn readable_entry(node: Node, expect_dev: Option<u64>) -> bool
    decreases node, 0int,
{
    &&& !is_dot(node.name@)
    &&& node.file_type matches Ok(kind)
    &&& node.metadata matches Ok(stat)
    &&& stat.file_type == kind
    &&& (expect_dev matches Some(dev) ==> stat.dev == dev)
    &&& (kind.is_dir() ==> readable_listing(node.listing, expect_dev))
}

/// The number of regular files below a directory, at any depth: links
/// and special files do not count. With `only_empty`, only the regular
/// files of length zero count.
pub open spec fn count_files_listing(listing: Result<Listing, Errno>, only_empty: bool) -> nat
    decreases listing, 0int,
{
    match listing {
        Err(_) => 0,
        Ok(found) => count_files_entries(found.entries@, only_empty),
    }
}

/// [`count_files_listing`] for the entries of one listing.
pub open spec fn count_files_entries(entries: Seq<Node>, only_empty: bool) -> nat
    decreases entries, entries.len(),
{
    if entries.len() == 0 {
        0
    } else {
        count_files_entries(entries.drop_last(), only_empty) + count_files_entry(
            entries.last(),
            only_empty,
        )
    }
}

/// [`count_files_listing`] for one entry.
pub open spec fn count_files_entry(node: Node, only_empty: bool) -> nat
    decreases node, 0int,
{
    match node.metadata {
        Err(_) => 0,
        Ok(stat) => if stat.file_type.is_dir() {
            count_files_listing(node.listing, only_empty)
        } else if !stat.file_type.is_file() || (only_empty && stat.len != 0) {
            0
        } else {
            1
        },
    }
}

} // verus!
