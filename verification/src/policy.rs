//! The rules by which one directory entry is skipped, measured, descended
//! into or reported. The caller asks the file system; these functions decide.

use crate::entry::{Errno, FileType, Stat};
use vstd::prelude::*;

verus! {

/// What is to be done with an entry.
#[derive(Clone, Copy, Debug, PartialEq, Eq, Structural)]
pub enum Verdict {
    /// Leave the entry out, silently.
    Skip,
    /// Count a file of this many bytes.
    Record(u64),
    /// Traverse the entry as a directory.
    Descend,
    /// The entry is a regular file: ask for its metadata to learn its
    /// length.
    NeedMetadata,
    /// Report this error for the entry and leave it out.
    Report(Errno),
}

/// How the one-file-system filter stands once the root has been looked at.
#[derive(Clone, Copy, Debug, PartialEq, Eq, Structural)]
pub enum Filter {
    /// The filter was not asked for.
    Off,
    /// Entries are held to this device, the root's.
    On(u64),
    /// The filter was asked for on a platform without device numbers: this
    /// is reported once, and the traversal goes on without the filter.
    Unsupported,
    /// The filter was asked for and the root's metadata cannot be had: the
    /// error is reported and the traversal does not start.
    Unavailable(Errno),
}

/// The error that is reported where the filter is not supported.
pub const UNSUPPORTED: Errno = 95;

impl Filter {
    /// The device that entries are held to, if the filter is on.
    pub open spec fn spec_expect_dev(self) -> Option<u64> {
        match self {
            Filter::On(dev) => Some(dev),
            _ => None,
        }
    }

    #[verifier::when_used_as_spec(spec_expect_dev)]
    pub fn expect_dev(self) -> (dev: Option<u64>)
        ensures
            dev == self.spec_expect_dev(),
    {
        match self {
            Filter::On(dev) => Some(dev),
            _ => None,
        }
    }
}

/// How the filter stands for a root with this metadata, on a platform that
/// has device numbers or has none.
pub open spec fn filter_for(
    one_file_system: bool,
    device_ids: bool,
    root_metadata: Result<Stat, Errno>,
) -> Filter {
    if !one_file_system {
        Filter::Off
    } else if !device_ids {
        Filter::Unsupported
    } else {
        match root_metadata {
            Ok(stat) => Filter::On(stat.dev),
            Err(e) => Filter::Unavailable(e),
        }
    }
}

/// Whether the root's metadata has to be looked up to settle the filter:
/// only where the filter is asked for and the platform has device numbers.
/// Where it has not to be, [`filter_for`] is the same whatever the
/// metadata.
pub fn root_lookup_needed(one_file_system: bool, device_ids: bool) -> (needed: bool)
    ensures
        needed == (one_file_system && device_ids),
        !needed ==> forall|a: Result<Stat, Errno>, b: Result<Stat, Errno>|
            #[trigger] filter_for(one_file_system, device_ids, a) == #[trigger] filter_for(
                one_file_system,
                device_ids,
                b,
            ),
{
    one_file_system && device_ids
}

/// Computes [`filter_for`].
pub fn settle_filter(
    one_file_system: bool,
    device_ids: bool,
    root_metadata: Result<Stat, Errno>,
) -> (filter: Filter)
    ensures
        filter == filter_for(one_file_system, device_ids, root_metadata),
{
    if !one_file_system {
        Filter::Off
    } else if !device_ids {
        Filter::Unsupported
    } else {
        match root_metadata {
            Ok(stat) => Filter::On(stat.dev),
            Err(e) => Filter::Unavailable(e),
        }
    }
}

/// The verdict on a file of `size` bytes: an empty file counts only where
/// empty files are included.
pub open spec fn size_verdict(size: u64, include_empty: bool) -> Verdict {
    if size == 0 && !include_empty {
        Verdict::Skip
    } else {
        Verdict::Record(size)
    }
}

/// The verdict on an entry whose metadata is at hand: a directory is
/// entered, a regular file is measured, and a link or a special file is
/// left out.
pub open spec fn stat_verdict(stat: Stat, include_empty: bool) -> Verdict {
    if stat.file_type.is_dir() {
        Verdict::Descend
    } else if stat.file_type.is_file() {
        size_verdict(stat.len, include_empty)
    } else {
        Verdict::Skip
    }
}

/// The verdict on metadata that was fetched under the one-file-system
/// filter, with `expect_dev` the root's device: what lies on another
/// device is left out, whatever it is.
pub open spec fn filtered_verdict(
    metadata: Result<Stat, Errno>,
    expect_dev: u64,
    include_empty: bool,
) -> Verdict {
    match metadata {
        Err(e) => Verdict::Report(e),
        Ok(stat) => if stat.dev != expect_dev {
            Verdict::Skip
        } else {
            stat_verdict(stat, include_empty)
        },
    }
}

/// The verdict on an entry's kind where no filter is on: a directory is
/// entered, a regular file is looked up, and a link or a special file is
/// left out without a lookup.
pub open spec fn kind_verdict(file_type: Result<FileType, Errno>) -> Verdict {
    match file_type {
        Err(e) => Verdict::Report(e),
        Ok(t) => if t.is_dir() {
            Verdict::Descend
        } else if t.is_file() {
            Verdict::NeedMetadata
        } else {
            Verdict::Skip
        },
    }
}

/// The verdict on the metadata of an entry that was listed as a regular
/// file.
pub open spec fn length_verdict(metadata: Result<Stat, Errno>, include_empty: bool) -> Verdict {
    match metadata {
        Err(e) => Verdict::Report(e),
        Ok(stat) => stat_verdict(stat, include_empty),
    }
}

/// The final verdict on an entry, given what the file system answers to
/// both questions: with the filter on, the metadata decides alone; with it
/// off, the kind decides and the metadata is asked only for a regular file.
/// Either way only regular files are recorded.
pub open spec fn entry_verdict(
    file_type: Result<FileType, Errno>,
    metadata: Result<Stat, Errno>,
    expect_dev: Option<u64>,
    include_empty: bool,
) -> Verdict {
    match expect_dev {
        Some(dev) => filtered_verdict(metadata, dev, include_empty),
        None => match kind_verdict(file_type) {
            Verdict::NeedMetadata => length_verdict(metadata, include_empty),
            other => other,
        },
    }
}

/// Decides on a file's size.
pub fn record_or_skip(size: u64, include_empty: bool) -> (verdict: Verdict)
    ensures
        verdict == size_verdict(size, include_empty),
{
    if size == 0 && !include_empty {
        Verdict::Skip
    } else {
        Verdict::Record(size)
    }
}

/// Decides on an entry whose metadata is at hand.
pub fn on_stat(stat: Stat, include_empty: bool) -> (verdict: Verdict)
    ensures
        verdict == stat_verdict(stat, include_empty),
        verdict != Verdict::NeedMetadata,
        verdict matches Verdict::Record(size) ==> stat.file_type == FileType::File && size
            == stat.len,
{
    if stat.file_type.is_dir() {
        Verdict::Descend
    } else if stat.file_type.is_file() {
        record_or_skip(stat.len, include_empty)
    } else {
        Verdict::Skip
    }
}

/// Decides on the metadata fetched under the one-file-system filter.
pub fn on_filtered_metadata(
    metadata: Result<Stat, Errno>,
    expect_dev: u64,
    include_empty: bool,
) -> (verdict: Verdict)
    ensures
        verdict == filtered_verdict(metadata, expect_dev, include_empty),
        verdict != Verdict::NeedMetadata,
{
    match metadata {
        Err(e) => Verdict::Report(e),
        Ok(stat) => {
            if stat.dev != expect_dev {
                Verdict::Skip
            } else {
                on_stat(stat, include_empty)
            }
        },
    }
}

/// Decides on an entry's kind where no filter is on.
pub fn on_file_type(file_type: Result<FileType, Errno>) -> (verdict: Verdict)
    ensures
        verdict == kind_verdict(file_type),
{
    match file_type {
        Err(e) => Verdict::Report(e),
        Ok(t) => {
            if t.is_dir() {
                Verdict::Descend
            } else if t.is_file() {
                Verdict::NeedMetadata
            } else {
                Verdict::Skip
            }
        },
    }
}

/// Decides on the metadata of an entry that was listed as a regular file.
pub fn on_length(metadata: Result<Stat, Errno>, include_empty: bool) -> (verdict: Verdict)
    ensures
        verdict == length_verdict(metadata, include_empty),
        verdict != Verdict::NeedMetadata,
{
    match metadata {
        Err(e) => Verdict::Report(e),
        Ok(stat) => on_stat(stat, include_empty),
    }
}

/// Decides on an entry whose answers are both at hand: under the filter by
/// the metadata alone, else by the kind and, for a regular file, the
/// metadata.
pub fn decide(
    file_type: Result<FileType, Errno>,
    metadata: Result<Stat, Errno>,
    expect_dev: Option<u64>,
    include_empty: bool,
) -> (verdict: Verdict)
    ensures
        verdict == entry_verdict(file_type, metadata, expect_dev, include_empty),
        verdict != Verdict::NeedMetadata,
{
    match expect_dev {
        Some(dev) => on_filtered_metadata(metadata, dev, include_empty),
        None => match on_file_type(file_type) {
            Verdict::NeedMetadata => on_length(metadata, include_empty),
            other => other,
        },
    }
}

/// Only regular files are recorded: whatever the answers and the settings,
/// a recorded size is the length of an entry whose metadata says that it is
/// a regular file, and without the filter its listing says so too.
pub proof fn lemma_only_regular_files_recorded(
    file_type: Result<FileType, Errno>,
    metadata: Result<Stat, Errno>,
    expect_dev: Option<u64>,
    include_empty: bool,
)
    ensures
        entry_verdict(file_type, metadata, expect_dev, include_empty) matches Verdict::Record(
            size,
        ) ==> {
            &&& metadata matches Ok(stat)
            &&& stat.file_type == FileType::File
            &&& stat.len == size
            &&& (size != 0 || include_empty)
            &&& (expect_dev matches Some(dev) ==> stat.dev == dev)
            &&& (expect_dev is None ==> file_type == Ok::<FileType, Errno>(FileType::File))
        },
{
}

/// An empty file is recorded if and only if empty files are included, and a
/// file that is not empty is recorded whatever the setting.
pub proof fn lemma_empty_file_policy(size: u64, include_empty: bool)
    ensures
        size_verdict(size, include_empty) == Verdict::Record(size) <==> (size != 0
            || include_empty),
        size_verdict(size, include_empty) == Verdict::Skip <==> (size == 0 && !include_empty),
{
}

} // verus!
