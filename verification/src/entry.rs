//! What the file system says of one directory entry, as plain values.

use vstd::prelude::*;

verus! {

/// The kind of a directory entry.
#[derive(Clone, Copy, Debug, PartialEq, Eq, Structural)]
pub enum FileType {
    File,
    Dir,
    Symlink,
    Other,
}

impl FileType {
    /// Only a directory is descended into.
    pub open spec fn spec_is_dir(self) -> bool {
        self == FileType::Dir
    }

    /// Only a regular file is measured; links and special files are left
    /// out.
    pub open spec fn spec_is_file(self) -> bool {
        self == FileType::File
    }

    #[verifier::when_used_as_spec(spec_is_file)]
    pub fn is_file(self) -> (b: bool)
        ensures
            b == self.spec_is_file(),
    {
        match self {
            FileType::File => true,
            _ => false,
        }
    }

    #[verifier::when_used_as_spec(spec_is_dir)]
    pub fn is_dir(self) -> (b: bool)
        ensures
            b == self.spec_is_dir(),
    {
        match self {
            FileType::Dir => true,
            _ => false,
        }
    }
}

/// The metadata of an entry: its kind, its length in bytes and the device it
/// lies on.
#[derive(Clone, Copy, Debug, PartialEq, Eq, Structural)]
pub struct Stat {
    pub file_type: FileType,
    pub len: u64,
    pub dev: u64,
}

/// An operating-system error, by its number.
pub type Errno = i32;

} // verus!
