//! The scheduler: directories wait as tasks in a queue, each task is run by
//! one of the workers, a task spawns one task for every subdirectory that
//! it has opened, and when the queue is empty the workers' histograms are
//! merged into one.

use crate::batch::{
    lemma_items_tally, lemma_one_report, lemma_reported_push, local_sum, reported, run_items,
    spawns, subtree_sum, Tally, WorkerContext,
};
use crate::config::Config;
use crate::entry::Errno;
use crate::histogram::{lemma_samples_of_empty, merge_all, merged, samples_of, SizeHistogram};
use crate::ring::{occupancy, valid_capacity};
use crate::traverse::{filter_notice, open_root, path_copy, path_join, report, root_filter, walk_root};
use crate::tree::{reports_view, walk_entries, walk_listing, Listing, Node, Report, Root};
use vstd::multiset::Multiset;
use vstd::prelude::*;

verus! {

/// Why a pool yields no histogram.
#[derive(Clone, Copy, Debug, PartialEq, Eq, Structural)]
pub enum PoolError {
    /// The capacity of the rings is no power of two up to 64.
    InvalidCapacity,
    /// The configuration asks for no worker at all.
    NoWorkers,
    /// The filter is on and the root's metadata cannot be had; the error is
    /// reported at the root's path.
    RootUnavailable,
}

/// One directory that waits to be traversed: its path, and the answer to
/// opening it.
pub struct DirectoryTask<'a> {
    pub path: Vec<u8>,
    pub listing: &'a Result<Listing, Errno>,
}

/// The queue of the directories that wait to be traversed.
pub struct Scheduler<'a> {
    tasks: Vec<DirectoryTask<'a>>,
}

impl<'a> View for Scheduler<'a> {
    type V = Seq<DirectoryTask<'a>>;

    closed spec fn view(&self) -> Seq<DirectoryTask<'a>> {
        self.tasks@
    }
}

impl<'a> Scheduler<'a> {
    /// A scheduler without tasks.
    pub fn new() -> (scheduler: Scheduler<'a>)
        ensures
            scheduler@.len() == 0,
    {
        Scheduler { tasks: Vec::new() }
    }

    /// Queues the traversal of one directory.
    pub fn spawn_traversal(&mut self, task: DirectoryTask<'a>)
        ensures
            final(self)@ == old(self)@.push(task),
    {
        self.tasks.push(task);
    }

    /// Takes the task that was queued last, if any is left.
    pub fn next_task(&mut self) -> (task: Option<DirectoryTask<'a>>)
        ensures
            match task {
                Some(t) => old(self)@.len() > 0 && t == old(self)@.last() && final(self)@ == old(
                    self,
                )@.drop_last(),
                None => old(self)@.len() == 0 && final(self)@ == old(self)@,
            },
    {
        self.tasks.pop()
    }
}

/// The number of directories at and below a directory, entered or not.
pub open spec fn weight_listing(listing: Result<Listing, Errno>) -> nat
    decreases listing, 0int,
{
    match listing {
        Err(_) => 1,
        Ok(found) => 1 + weight_entries(found.entries@),
    }
}

/// [`weight_listing`] for the entries of one listing.
pub open spec fn weight_entries(entries: Seq<Node>) -> nat
    decreases entries, entries.len(),
{
    if entries.len() == 0 {
        0
    } else {
        weight_entries(entries.drop_last()) + weight_entry(entries.last())
    }
}

/// [`weight_listing`] for one entry.
pub open spec fn weight_entry(node: Node) -> nat
    decreases node, 0int,
{
    weight_listing(node.listing)
}

/// The weight of those of the first `n` entries that the traversal enters.
spec fn entered_weight(
    entries: Seq<Node>,
    n: int,
    expect_dev: Option<u64>,
    include_empty: bool,
) -> nat
    decreases n,
{
    if n <= 0 {
        0
    } else {
        entered_weight(entries, n - 1, expect_dev, include_empty) + if spawns(
            entries[n - 1],
            expect_dev,
            include_empty,
        ) {
            weight_listing(entries[n - 1].listing)
        } else {
            0
        }
    }
}

/// The entries that are entered weigh no more than all entries.
proof fn lemma_entered_weight(
    entries: Seq<Node>,
    n: int,
    expect_dev: Option<u64>,
    include_empty: bool,
)
    requires
        0 <= n <= entries.len(),
    ensures
        entered_weight(entries, n, expect_dev, include_empty) <= weight_entries(entries.take(n)),
    decreases n,
{
    if n > 0 {
        lemma_entered_weight(entries, n - 1, expect_dev, include_empty);
        assert(entries.take(n).drop_last() == entries.take(n - 1));
        assert(weight_entry(entries[n - 1]) == weight_listing(entries[n - 1].listing));
    }
}

/// What the tasks of a queue will have come to when all of them, and all
/// that they spawn, have run.
spec fn queue_tally(
    tasks: Seq<DirectoryTask>,
    expect_dev: Option<u64>,
    include_empty: bool,
) -> Tally
    decreases tasks.len(),
{
    if tasks.len() == 0 {
        Tally::zero()
    } else {
        queue_tally(tasks.drop_last(), expect_dev, include_empty).plus(
            Tally::of(
                walk_listing(tasks.last().path@, *tasks.last().listing, expect_dev, include_empty),
            ),
        )
    }
}

/// The weight of the directories that wait in a queue.
spec fn queue_weight(tasks: Seq<DirectoryTask>) -> nat
    decreases tasks.len(),
{
    if tasks.len() == 0 {
        0
    } else {
        queue_weight(tasks.drop_last()) + weight_listing(*tasks.last().listing)
    }
}

/// What all workers together have recorded.
pub open spec fn pool_recorded(workers: Seq<WorkerContext>) -> Multiset<u64>
    decreases workers.len(),
{
    if workers.len() == 0 {
        Multiset::empty()
    } else {
        pool_recorded(workers.drop_last()).add(workers.last().recorded())
    }
}

/// What one worker records more, the pool records more.
proof fn lemma_pool_update(
    workers: Seq<WorkerContext>,
    k: int,
    worker: WorkerContext,
    more: Multiset<u64>,
)
    requires
        0 <= k < workers.len(),
        worker.recorded() == workers[k].recorded().add(more),
    ensures
        pool_recorded(workers.update(k, worker)) =~= pool_recorded(workers).add(more),
    decreases workers.len(),
{
    let updated = workers.update(k, worker);
    if k == workers.len() - 1 {
        assert(updated.drop_last() == workers.drop_last());
    } else {
        assert(updated.drop_last() == workers.drop_last().update(k, worker));
        lemma_pool_update(workers.drop_last(), k, worker, more);
    }
}

/// Workers that have recorded nothing have recorded nothing together.
proof fn lemma_pool_empty(workers: Seq<WorkerContext>)
    requires
        forall|k: int|
            0 <= k < workers.len() ==> (#[trigger] workers[k]).recorded() == Multiset::<u64>::empty(),
    ensures
        pool_recorded(workers) =~= Multiset::<u64>::empty(),
    decreases workers.len(),
{
    if workers.len() > 0 {
        lemma_pool_empty(workers.drop_last());
    }
}

/// What running one directory task comes to, the tasks that it spawns
/// aside: the report of a directory that cannot be opened, or what its
/// entries come to by themselves and the report of a listing cut short.
spec fn directory_tally(
    path: Seq<u8>,
    listing: Result<Listing, Errno>,
    expect_dev: Option<u64>,
    include_empty: bool,
) -> Tally {
    match listing {
        Err(e) => Tally::report(path, e),
        Ok(found) => local_sum(
            path,
            found.entries@,
            found.entries@.len() as int,
            expect_dev,
            include_empty,
        ).plus(
            match found.failure {
                Some(e) => Tally::report(path, e),
                None => Tally::zero(),
            },
        ),
    }
}

/// What the tasks that a directory task spawns come to.
spec fn children_tally(
    path: Seq<u8>,
    listing: Result<Listing, Errno>,
    expect_dev: Option<u64>,
    include_empty: bool,
) -> Tally {
    match listing {
        Err(_) => Tally::zero(),
        Ok(found) => subtree_sum(
            path,
            found.entries@,
            found.entries@.len() as int,
            expect_dev,
            include_empty,
        ),
    }
}

/// The traversal of a directory comes to what its own task comes to and
/// what the tasks that it spawns come to.
proof fn lemma_directory_split(
    path: Seq<u8>,
    listing: Result<Listing, Errno>,
    expect_dev: Option<u64>,
    include_empty: bool,
)
    ensures
        Tally::of(walk_listing(path, listing, expect_dev, include_empty)) =~= directory_tally(
            path,
            listing,
            expect_dev,
            include_empty,
        ).plus(children_tally(path, listing, expect_dev, include_empty)),
{
    lemma_samples_of_empty();
    match listing {
        Err(e) => {
            lemma_one_report(path, e);
        },
        Ok(found) => {
            let entries = found.entries@;
            let n = entries.len() as int;
            lemma_items_tally(path, entries, n, expect_dev, include_empty);
            assert(entries.take(n) == entries);
            let whole = walk_entries(path, entries, expect_dev, include_empty);
            match found.failure {
                Some(e) => {
                    lemma_one_report(path, e);
                    vstd::seq_lib::lemma_multiset_commutative(whole.reports, seq![(path, e)]);
                },
                None => {},
            }
        },
    }
}

/// Runs one directory task on `worker`: the directory's entries go
/// through the worker's ring, which has drained when the task is done. The
/// result marks the entries for which a task is to be spawned.
fn run_task(
    worker: &mut WorkerContext,
    task: &DirectoryTask,
    expect_dev: Option<u64>,
    include_empty: bool,
    reports: &mut Vec<Report>,
) -> (marks: Vec<bool>)
    requires
        old(worker).wf(),
        occupancy(old(worker).slots()) == 0,
    ensures
        final(worker).wf(),
        occupancy(final(worker).slots()) == 0,
        final(worker).slots().len() == old(worker).slots().len(),
        final(worker).recorded() == old(worker).recorded().add(
            directory_tally(task.path@, *task.listing, expect_dev, include_empty).sizes,
        ),
        reported(final(reports)@) == reported(old(reports)@).add(
            directory_tally(task.path@, *task.listing, expect_dev, include_empty).reports,
        ),
        match *task.listing {
            Err(_) => marks@.len() == 0,
            Ok(found) => marks@.len() == found.entries@.len() && forall|j: int|
                0 <= j < found.entries@.len() ==> (#[trigger] marks@[j] <==> spawns(
                    found.entries@[j],
                    expect_dev,
                    include_empty,
                )),
        },
{
    match task.listing {
        Err(e) => {
            let ghost before = reports@;
            report(reports, path_copy(&task.path), *e);
            proof {
                lemma_reported_push(before, reports@, task.path@, *e);
            }
            Vec::new()
        },
        Ok(found) => {
            let marks = run_items(
                worker,
                &task.path,
                &found.entries,
                expect_dev,
                include_empty,
                reports,
            );
            match found.failure {
                Some(e) => {
                    let ghost before = reports@;
                    report(reports, path_copy(&task.path), e);
                    proof {
                        lemma_reported_push(before, reports@, task.path@, e);
                    }
                },
                None => {},
            }
            marks
        },
    }
}

/// Spawns one task for every entry of `task` that is marked.
fn spawn_children<'a>(
    scheduler: &mut Scheduler<'a>,
    task: &DirectoryTask<'a>,
    marks: &Vec<bool>,
    expect_dev: Option<u64>,
    include_empty: bool,
)
    requires
        match *task.listing {
            Err(_) => marks@.len() == 0,
            Ok(found) => marks@.len() == found.entries@.len() && forall|j: int|
                0 <= j < found.entries@.len() ==> (#[trigger] marks@[j] <==> spawns(
                    found.entries@[j],
                    expect_dev,
                    include_empty,
                )),
        },
    ensures
        queue_tally(final(scheduler)@, expect_dev, include_empty) =~= queue_tally(
            old(scheduler)@,
            expect_dev,
            include_empty,
        ).plus(children_tally(task.path@, *task.listing, expect_dev, include_empty)),
        queue_weight(final(scheduler)@) + 1 <= queue_weight(old(scheduler)@) + weight_listing(
            *task.listing,
        ),
{
    let ghost before = queue_tally(scheduler@, expect_dev, include_empty);
    let ghost weight = queue_weight(scheduler@);
    match task.listing {
        Err(_) => {},
        Ok(found) => {
            let entries = &found.entries;
            let n = entries.len();
            let mut c: usize = 0;
            while c < n
                invariant
                    c <= n,
                    n == entries@.len(),
                    *task.listing == Ok::<Listing, Errno>(*found),
                    *entries == found.entries,
                    marks@.len() == n,
                    forall|j: int|
                        0 <= j < n ==> (#[trigger] marks@[j] <==> spawns(
                            entries@[j],
                            expect_dev,
                            include_empty,
                        )),
                    queue_tally(scheduler@, expect_dev, include_empty) =~= before.plus(
                        subtree_sum(task.path@, entries@, c as int, expect_dev, include_empty),
                    ),
                    queue_weight(scheduler@) == weight + entered_weight(
                        entries@,
                        c as int,
                        expect_dev,
                        include_empty,
                    ),
                decreases n - c,
            {
                let ghost queued = scheduler@;
                if marks[c] {
                    let node = &entries[c];
                    let child = DirectoryTask {
                        path: path_join(&task.path, &node.name),
                        listing: &node.listing,
                    };
                    scheduler.spawn_traversal(child);
                    proof {
                        assert(scheduler@.drop_last() == queued);
                    }
                }
                c += 1;
            }
            proof {
                lemma_entered_weight(entries@, n as int, expect_dev, include_empty);
                assert(entries@.take(n as int) == entries@);
            }
        },
    }
}

/// Gathers the sizes of all files under `root` into a histogram, as a pool
/// of `config.threads` workers does, each with a ring of `ring_capacity`
/// slots.
///
/// The root is the first task. Every task is run by the worker whose turn
/// it is and spawns a task for every subdirectory that it has opened; a
/// worker's ring has drained whenever a task of its is done. When no task
/// is left, the workers' histograms are merged.
///
/// The result holds exactly the sizes that [`walk_root`] lists, whatever
/// the number of workers and the capacity of their rings, and the reports
/// are those that it lists, in the order in which the workers met them.
pub fn pool_dir_size_histogram(
    root: &Root,
    config: &Config,
    ring_capacity: usize,
    reports: &mut Vec<Report>,
) -> (result: Result<SizeHistogram, PoolError>)
    ensures
        match result {
            Ok(histogram) => {
                &&& valid_capacity(ring_capacity as int)
                &&& config.valid()
                &&& !(root_filter(*root, *config) is Unavailable)
                &&& histogram@ == samples_of(walk_root(*root, *config).sizes)
                &&& reported(final(reports)@) == reported(old(reports)@).add(
                    walk_root(*root, *config).reports.to_multiset(),
                )
            },
            Err(PoolError::InvalidCapacity) => {
                &&& !valid_capacity(ring_capacity as int)
                &&& final(reports)@ == old(reports)@
            },
            Err(PoolError::NoWorkers) => {
                &&& valid_capacity(ring_capacity as int)
                &&& !config.valid()
                &&& final(reports)@ == old(reports)@
            },
            Err(PoolError::RootUnavailable) => {
                &&& valid_capacity(ring_capacity as int)
                &&& config.valid()
                &&& root_filter(*root, *config) is Unavailable
                &&& reported(final(reports)@) == reported(old(reports)@).add(
                    walk_root(*root, *config).reports.to_multiset(),
                )
            },
        },
{
    let ghost before = reports@;
    let include_empty = config.include_empty;
    let mut workers: Vec<WorkerContext> = Vec::new();
    match WorkerContext::new(ring_capacity) {
        None => {
            return Err(PoolError::InvalidCapacity);
        },
        Some(worker) => {
            if config.threads == 0 {
                return Err(PoolError::NoWorkers);
            }
            workers.push(worker);
        },
    }
    while workers.len() < config.threads
        invariant
            1 <= workers@.len() <= config.threads,
            valid_capacity(ring_capacity as int),
            forall|k: int|
                0 <= k < workers@.len() ==> {
                    &&& (#[trigger] workers@[k]).wf()
                    &&& occupancy(workers@[k].slots()) == 0
                    &&& workers@[k].recorded() == Multiset::<u64>::empty()
                },
        decreases config.threads - workers@.len(),
    {
        match WorkerContext::new(ring_capacity) {
            Some(worker) => workers.push(worker),
            None => vstd::pervasive::unreached(),
        }
    }
    let expect_dev = match open_root(root, config, reports) {
        Ok(expect_dev) => expect_dev,
        Err(_) => {
            proof {
                let e = root_filter(*root, *config)->Unavailable_0;
                lemma_reported_push(before, reports@, root.path@, e);
                lemma_one_report(root.path@, e);
            }
            return Err(PoolError::RootUnavailable);
        },
    };
    let ghost notice = filter_notice(root.path@, root_filter(*root, *config));
    let ghost below = walk_listing(root.path@, root.listing, expect_dev, include_empty);
    let ghost r1 = reported(reports@);
    let mut scheduler = Scheduler::new();
    let first = DirectoryTask { path: path_copy(&root.path), listing: &root.listing };
    scheduler.spawn_traversal(first);
    let mut turn: usize = 0;
    proof {
        vstd::seq_lib::lemma_multiset_commutative(reports_view(before), notice.reports);
        lemma_pool_empty(workers@);
        assert(queue_tally(scheduler@.drop_last(), expect_dev, include_empty) == Tally::zero());
    }
    loop
        invariant
            include_empty == config.include_empty,
            0 <= turn < workers@.len(),
            forall|k: int|
                0 <= k < workers@.len() ==> (#[trigger] workers@[k]).wf() && occupancy(
                    workers@[k].slots(),
                ) == 0,
            pool_recorded(workers@).add(
                queue_tally(scheduler@, expect_dev, include_empty).sizes,
            ) == samples_of(below.sizes),
            reported(reports@).add(queue_tally(scheduler@, expect_dev, include_empty).reports)
                == r1.add(below.reports.to_multiset()),
        ensures
            scheduler@.len() == 0,
            pool_recorded(workers@).add(
                queue_tally(scheduler@, expect_dev, include_empty).sizes,
            ) == samples_of(below.sizes),
            reported(reports@).add(queue_tally(scheduler@, expect_dev, include_empty).reports)
                == r1.add(below.reports.to_multiset()),
            forall|k: int|
                0 <= k < workers@.len() ==> (#[trigger] workers@[k]).wf() && occupancy(
                    workers@[k].slots(),
                ) == 0,
        decreases queue_weight(scheduler@),
    {
        let ghost pool = workers@;
        let task = match scheduler.next_task() {
            Some(task) => task,
            None => {
                break ;
            },
        };
        let mut worker = workers.remove(turn);
        let marks = run_task(&mut worker, &task, expect_dev, include_empty, reports);
        let ghost busy = worker;
        workers.insert(turn, worker);
        spawn_children(&mut scheduler, &task, &marks, expect_dev, include_empty);
        proof {
            let own = directory_tally(task.path@, *task.listing, expect_dev, include_empty);
            lemma_directory_split(task.path@, *task.listing, expect_dev, include_empty);
            assert(workers@ =~= pool.update(turn as int, busy));
            lemma_pool_update(pool, turn as int, busy, own.sizes);
        }
        let count = workers.len();
        turn = if turn + 1 < count {
            turn + 1
        } else {
            0
        };
    }
    let mut parts: Vec<SizeHistogram> = Vec::new();
    let ghost total = pool_recorded(workers@);
    proof {
        vstd::seq_lib::lemma_multiset_commutative(notice.reports, below.reports);
        assert(reported(reports@).add(Multiset::<(Seq<u8>, Errno)>::empty()) =~= reported(
            reports@,
        ));
    }
    while workers.len() > 0
        invariant
            forall|k: int|
                0 <= k < workers@.len() ==> (#[trigger] workers@[k]).wf() && occupancy(
                    workers@[k].slots(),
                ) == 0,
            merged(parts@.map_values(|h: SizeHistogram| h@)).add(pool_recorded(workers@))
                == total,
        decreases workers@.len(),
    {
        let ghost views = parts@.map_values(|h: SizeHistogram| h@);
        let worker = match workers.pop() {
            Some(worker) => worker,
            None => vstd::pervasive::unreached(),
        };
        match worker.finish() {
            Ok(histogram) => {
                parts.push(histogram);
                proof {
                    let next = parts@.map_values(|h: SizeHistogram| h@);
                    assert(next.drop_last() =~= views);
                }
            },
            Err(_) => vstd::pervasive::unreached(),
        }
    }
    let histogram = merge_all(&parts);
    Ok(histogram)
}

} // verus!
