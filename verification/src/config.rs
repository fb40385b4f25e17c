//! What a run is configured with.

use vstd::prelude::*;

verus! {

/// The settings of one traversal.
#[derive(Clone, Copy, Debug, PartialEq, Eq, Structural)]
pub struct Config {
    /// Skip every entry whose device differs from the root's.
    pub one_file_system: bool,
    /// Record files of length zero too.
    pub include_empty: bool,
    /// The number of worker threads; never zero in a valid configuration.
    pub threads: usize,
}

impl Config {
    /// A configuration is valid when it asks for at least one worker.
    pub open spec fn valid(self) -> bool {
        self.threads >= 1
    }

    /// Builds a configuration from the requested thread count, where zero
    /// stands for twice the hardware's parallelism.
    pub fn new(
        one_file_system: bool,
        include_empty: bool,
        requested_threads: usize,
        available_parallelism: usize,
    ) -> (config: Config)
        requires
            available_parallelism >= 1,
        ensures
            config.valid(),
            config.one_file_system == one_file_system,
            config.include_empty == include_empty,
            config.threads as int == effective_threads(
                requested_threads as int,
                available_parallelism as int,
            ),
    {
        Config {
            one_file_system,
            include_empty,
            threads: resolve_threads(requested_threads, available_parallelism),
        }
    }
}

/// The worker count that a request stands for: the request itself unless it
/// is zero, else twice the available parallelism, capped at `usize::MAX`.
pub open spec fn effective_threads(requested: int, available: int) -> int {
    if requested != 0 {
        requested
    } else if 2 * available <= usize::MAX {
        2 * available
    } else {
        usize::MAX as int
    }
}

/// Computes [`effective_threads`].
pub fn resolve_threads(requested: usize, available: usize) -> (threads: usize)
    requires
        available >= 1,
    ensures
        threads as int == effective_threads(requested as int, available as int),
        threads >= 1,
{
    if requested != 0 {
        requested
    } else if available <= usize::MAX / 2 {
        2 * available
    } else {
        usize::MAX
    }
}

} // verus!
