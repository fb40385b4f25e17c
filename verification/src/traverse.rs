//! The traversal of a directory tree: every file that the rules admit is
//! recorded in the histogram, every failure is reported and passed over.

use crate::config::Config;
use crate::entry::Errno;
use crate::enumerator::{is_dot, is_dot_name};
use crate::histogram::{
    lemma_samples_of_concat, lemma_samples_of_len, lemma_samples_of_one, samples_of,
    SizeHistogram,
};
use crate::policy::{
    decide, entry_verdict, filter_for, settle_filter, Filter, Verdict, UNSUPPORTED,
};
use crate::tree::{
    count_files_entries, count_files_entry, count_files_listing, join, readable_entries,
    readable_entry, readable_listing, reports_view, walk_entries, walk_entry, walk_listing,
    Listing, Node, Outcome, Report, Root, SEPARATOR,
};
use vstd::prelude::*;

verus! {

/// How the filter stands for `root` under `config`.
pub open spec fn root_filter(root: Root, config: Config) -> Filter {
    filter_for(config.one_file_system, root.device_ids, root.metadata)
}

/// What comes before the traversal of the root's listing: the report that
/// the filter is not supported, where that is so.
pub open spec fn filter_notice(path: Seq<u8>, filter: Filter) -> Outcome {
    match filter {
        Filter::Unsupported => Outcome::reported(path, UNSUPPORTED),
        _ => Outcome::nothing(),
    }
}

/// What the traversal of `root` yields.
///
/// Where the root's metadata is needed and cannot be had, that error is
/// reported and nothing else happens. Where the filter is not supported,
/// that is reported and the tree is traversed without the filter. In every
/// other case the tree is traversed, held to the root's device where the
/// filter is on.
pub open spec fn walk_root(root: Root, config: Config) -> Outcome {
    let filter = root_filter(root, config);
    match filter {
        Filter::Unavailable(e) => Outcome::reported(root.path@, e),
        _ => filter_notice(root.path@, filter).followed_by(
            walk_listing(root.path@, root.listing, filter.expect_dev(), config.include_empty),
        ),
    }
}

/// The path of the entry `name` in the directory `parent`.
pub fn path_join(parent: &Vec<u8>, name: &Vec<u8>) -> (path: Vec<u8>)
    ensures
        path@ == join(parent@, name@),
{
    let mut path: Vec<u8> = Vec::new();
    let mut i: usize = 0;
    while i < parent.len()
        invariant
            i <= parent.len(),
            path@ == parent@.take(i as int),
        decreases parent.len() - i,
    {
        path.push(parent[i]);
        i += 1;
    }
    path.push(SEPARATOR);
    let mut j: usize = 0;
    while j < name.len()
        invariant
            j <= name.len(),
            path@ == parent@.push(SEPARATOR) + name@.take(j as int),
        decreases name.len() - j,
    {
        path.push(name[j]);
        j += 1;
    }
    path
}

/// Appends one report.
pub(crate) fn report(reports: &mut Vec<Report>, path: Vec<u8>, error: Errno)
    ensures
        reports_view(final(reports)@) == reports_view(old(reports)@).push((path@, error)),
{
    reports.push(Report { path, error });
}

/// Copies a path.
pub(crate) fn path_copy(path: &Vec<u8>) -> (copy: Vec<u8>)
    ensures
        copy@ == path@,
{
    let mut copy: Vec<u8> = Vec::new();
    let mut i: usize = 0;
    while i < path.len()
        invariant
            i <= path.len(),
            copy@ == path@.take(i as int),
        decreases path.len() - i,
    {
        copy.push(path[i]);
        i += 1;
    }
    copy
}

/// Traverses the directory at `path` whose opening answers `listing`.
///
/// A directory that cannot be opened is reported at `path`. Each entry goes
/// by [`walk_entry`]: `.` and `..` are passed over, any other entry is
/// skipped, recorded, traversed or reported at its own path as [`decide`]
/// says. A listing that was cut short is reported at `path` after its
/// entries.
pub fn traverse_dir(
    path: &Vec<u8>,
    listing: &Result<Listing, Errno>,
    expect_dev: Option<u64>,
    config: &Config,
    histogram: &mut SizeHistogram,
    reports: &mut Vec<Report>,
)
    ensures
        final(histogram)@ == old(histogram)@.add(
            samples_of(walk_listing(path@, *listing, expect_dev, config.include_empty).sizes),
        ),
        reports_view(final(reports)@) == reports_view(old(reports)@) + walk_listing(
            path@,
            *listing,
            expect_dev,
            config.include_empty,
        ).reports,
    decreases *listing,
{
    let ghost h0 = histogram@;
    let ghost r0 = reports_view(reports@);
    let include_empty = config.include_empty;
    match listing {
        Err(e) => {
            report(reports, path_copy(path), *e);
            proof {
                crate::histogram::lemma_samples_of_empty();
            }
        },
        Ok(found) => {
            let entries = &found.entries;
            let mut i: usize = 0;
            proof {
                crate::histogram::lemma_samples_of_empty();
            }
            while i < entries.len()
                invariant
                    i <= entries.len(),
                    *listing == Ok::<Listing, Errno>(*found),
                    *entries == found.entries,
                    include_empty == config.include_empty,
                    histogram@ == h0.add(
                        samples_of(
                            walk_entries(
                                path@,
                                entries@.take(i as int),
                                expect_dev,
                                include_empty,
                            ).sizes,
                        ),
                    ),
                    reports_view(reports@) == r0 + walk_entries(
                        path@,
                        entries@.take(i as int),
                        expect_dev,
                        include_empty,
                    ).reports,
                decreases entries.len() - i,
            {
                let ghost done = walk_entries(
                    path@,
                    entries@.take(i as int),
                    expect_dev,
                    include_empty,
                );
                let ghost this = walk_entry(path@, entries@[i as int], expect_dev, include_empty);
                proof {
                    let next = entries@.take(i + 1);
                    assert(next.drop_last() == entries@.take(i as int));
                    crate::histogram::lemma_samples_of_empty();
                }
                let node = &entries[i];
                let verdict = if is_dot_name(&node.name) {
                    Verdict::Skip
                } else {
                    decide(node.file_type, node.metadata, expect_dev, include_empty)
                };
                match verdict {
                    Verdict::Record(size) => {
                        histogram.record(size);
                        proof {
                            lemma_samples_of_one(size);
                        }
                    },
                    Verdict::Descend => {
                        let entry_path = path_join(path, &node.name);
                        proof {
                            assert(decreases_to!(*listing => listing->Ok_0));
                        }
                        traverse_dir(
                            &entry_path,
                            &node.listing,
                            expect_dev,
                            config,
                            histogram,
                            reports,
                        );
                    },
                    Verdict::Report(e) => {
                        report(reports, path_join(path, &node.name), e);
                    },
                    _ => {},
                }
                proof {
                    lemma_samples_of_concat(done.sizes, this.sizes);
                }
                i += 1;
            }
            proof {
                assert(entries@.take(entries.len() as int) == entries@);
            }
            match found.failure {
                Some(e) => {
                    report(reports, path_copy(path), e);
                },
                None => {},
            }
        },
    }
}

/// Settles the filter for `root` and reports what there is to report of
/// it. The result is the device to hold entries to, if any, or `Err` where
/// the traversal must not start.
pub(crate) fn open_root(root: &Root, config: &Config, reports: &mut Vec<Report>) -> (result:
    Result<Option<u64>, ()>)
    ensures
        match root_filter(*root, *config) {
            Filter::Unavailable(e) => result is Err && reports_view(final(reports)@)
                == reports_view(old(reports)@).push((root.path@, e)),
            filter => result == Ok::<Option<u64>, ()>(filter.expect_dev()) && reports_view(
                final(reports)@,
            ) == reports_view(old(reports)@) + filter_notice(root.path@, filter).reports,
        },
{
    let filter = settle_filter(config.one_file_system, root.device_ids, root.metadata);
    match filter {
        Filter::Unavailable(e) => {
            report(reports, path_copy(&root.path), e);
            Err(())
        },
        Filter::Unsupported => {
            report(reports, path_copy(&root.path), UNSUPPORTED);
            Ok(None)
        },
        _ => {
            Ok(filter.expect_dev())
        },
    }
}

/// Gathers the sizes of all files under `root` into a histogram.
///
/// The result is `Err` exactly where the one-file-system filter is on and
/// the root's metadata cannot be had; that error is then reported at the
/// root's path. In every other case the result is the histogram of exactly
/// the sizes that [`walk_root`] lists. The errors met on the way are
/// appended to `reports` in the order of the walk.
pub fn dir_size_histogram(
    root: &Root,
    config: &Config,
    reports: &mut Vec<Report>,
) -> (result: Result<SizeHistogram, ()>)
    ensures
        result is Err <==> root_filter(*root, *config) is Unavailable,
        result matches Ok(histogram) ==> histogram@ == samples_of(
            walk_root(*root, *config).sizes,
        ),
        reports_view(final(reports)@) == reports_view(old(reports)@) + walk_root(
            *root,
            *config,
        ).reports,
{
    let expect_dev = match open_root(root, config, reports) {
        Ok(expect_dev) => expect_dev,
        Err(_) => {
            return Err(());
        },
    };
    let mut histogram = SizeHistogram::new();
    traverse_dir(&root.path, &root.listing, expect_dev, config, &mut histogram, reports);
    Ok(histogram)
}

/// The outcome of a listing's entries is the outcome of its first part
/// followed by that of the rest: no entry changes what another yields.
pub proof fn lemma_walk_entries_concat(
    path: Seq<u8>,
    first: Seq<Node>,
    rest: Seq<Node>,
    expect_dev: Option<u64>,
    include_empty: bool,
)
    ensures
        walk_entries(path, first + rest, expect_dev, include_empty) == walk_entries(
            path,
            first,
            expect_dev,
            include_empty,
        ).followed_by(walk_entries(path, rest, expect_dev, include_empty)),
    decreases rest.len(),
{
    let a = walk_entries(path, first, expect_dev, include_empty);
    if rest.len() == 0 {
    } else {
        let all = first + rest;
        assert(all.drop_last() == first + rest.drop_last());
        lemma_walk_entries_concat(path, first, rest.drop_last(), expect_dev, include_empty);
        let b = walk_entries(path, rest.drop_last(), expect_dev, include_empty);
        let c = walk_entry(path, rest.last(), expect_dev, include_empty);
        assert((a.sizes + b.sizes) + c.sizes == a.sizes + (b.sizes + c.sizes));
        assert((a.reports + b.reports) + c.reports == a.reports + (b.reports + c.reports));
    }
}

/// A subdirectory that cannot be opened costs exactly one report, at its
/// own path, and nothing else: the entries before it and after it yield
/// what they yield without it.
pub proof fn lemma_unreadable_subdirectory(
    path: Seq<u8>,
    before: Seq<Node>,
    node: Node,
    after: Seq<Node>,
    expect_dev: Option<u64>,
    include_empty: bool,
)
    requires
        !is_dot(node.name@),
        entry_verdict(node.file_type, node.metadata, expect_dev, include_empty)
            == Verdict::Descend,
        node.listing is Err,
    ensures
        walk_entries(path, before.push(node) + after, expect_dev, include_empty) == walk_entries(
            path,
            before,
            expect_dev,
            include_empty,
        ).followed_by(
            Outcome::reported(join(path, node.name@), node.listing->Err_0),
        ).followed_by(walk_entries(path, after, expect_dev, include_empty)),
{
    let with_node = before.push(node);
    assert(with_node.drop_last() == before);
    assert(walk_entry(path, node, expect_dev, include_empty) == walk_listing(
        join(path, node.name@),
        node.listing,
        expect_dev,
        include_empty,
    ));
    lemma_walk_entries_concat(path, with_node, after, expect_dev, include_empty);
}

/// Keeps the sizes that are not zero.
pub open spec fn nonzero() -> spec_fn(u64) -> bool {
    |size: u64| size != 0
}

/// Leaving empty files out changes nothing but this: the sizes recorded are
/// those recorded with empty files included, less the zeros. The reports
/// are the same.
pub proof fn lemma_empty_policy_listing(
    path: Seq<u8>,
    listing: Result<Listing, Errno>,
    expect_dev: Option<u64>,
)
    ensures
        walk_listing(path, listing, expect_dev, false).sizes == walk_listing(
            path,
            listing,
            expect_dev,
            true,
        ).sizes.filter(nonzero()),
        walk_listing(path, listing, expect_dev, false).reports == walk_listing(
            path,
            listing,
            expect_dev,
            true,
        ).reports,
    decreases listing, 0int,
{
    reveal(Seq::filter);
    match listing {
        Err(e) => {},
        Ok(found) => {
            lemma_empty_policy_entries(path, found.entries@, expect_dev);
        },
    }
}

/// [`lemma_empty_policy_listing`] for the entries of one listing.
pub proof fn lemma_empty_policy_entries(
    path: Seq<u8>,
    entries: Seq<Node>,
    expect_dev: Option<u64>,
)
    ensures
        walk_entries(path, entries, expect_dev, false).sizes == walk_entries(
            path,
            entries,
            expect_dev,
            true,
        ).sizes.filter(nonzero()),
        walk_entries(path, entries, expect_dev, false).reports == walk_entries(
            path,
            entries,
            expect_dev,
            true,
        ).reports,
    decreases entries, entries.len(),
{
    reveal(Seq::filter);
    if entries.len() == 0 {
    } else {
        lemma_empty_policy_entries(path, entries.drop_last(), expect_dev);
        lemma_empty_policy_entry(path, entries.last(), expect_dev);
        Seq::filter_distributes_over_add(
            walk_entries(path, entries.drop_last(), expect_dev, true).sizes,
            walk_entry(path, entries.last(), expect_dev, true).sizes,
            nonzero(),
        );
    }
}

/// [`lemma_empty_policy_listing`] for one entry.
pub proof fn lemma_empty_policy_entry(path: Seq<u8>, node: Node, expect_dev: Option<u64>)
    ensures
        walk_entry(path, node, expect_dev, false).sizes == walk_entry(
            path,
            node,
            expect_dev,
            true,
        ).sizes.filter(nonzero()),
        walk_entry(path, node, expect_dev, false).reports == walk_entry(
            path,
            node,
            expect_dev,
            true,
        ).reports,
    decreases node, 0int,
{
    reveal(Seq::filter);
    let with = entry_verdict(node.file_type, node.metadata, expect_dev, true);
    match with {
        Verdict::Record(size) => {
            let one = seq![size];
            assert(one.drop_last() == Seq::<u64>::empty());
            assert(Seq::<u64>::empty().filter(nonzero()) == Seq::<u64>::empty());
        },
        Verdict::Descend => {
            lemma_empty_policy_listing(join(path, node.name@), node.listing, expect_dev);
        },
        _ => {},
    }
}

/// In a readable tree the number of recorded sizes is the number of
/// regular files where empty files are included, and that number less the
/// empty regular files where they are not; directories, links and special
/// files are never among them, and nothing is reported.
pub proof fn lemma_recorded_count(
    path: Seq<u8>,
    listing: Result<Listing, Errno>,
    expect_dev: Option<u64>,
    include_empty: bool,
)
    requires
        readable_listing(listing, expect_dev),
    ensures
        count_files_listing(listing, true) <= count_files_listing(listing, false),
        walk_listing(path, listing, expect_dev, include_empty).sizes.len() == if include_empty {
            count_files_listing(listing, false) as int
        } else {
            count_files_listing(listing, false) - count_files_listing(listing, true)
        },
        walk_listing(path, listing, expect_dev, include_empty).reports.len() == 0,
    decreases listing, 0int,
{
    match listing {
        Err(e) => {},
        Ok(found) => {
            lemma_recorded_count_entries(path, found.entries@, expect_dev, include_empty);
        },
    }
}

/// The histogram of a readable tree holds one sample for every regular
/// file where empty files are included, and one for every regular file
/// that is not empty where they are not.
pub proof fn lemma_histogram_count(
    path: Seq<u8>,
    listing: Result<Listing, Errno>,
    expect_dev: Option<u64>,
    include_empty: bool,
)
    requires
        readable_listing(listing, expect_dev),
    ensures
        samples_of(walk_listing(path, listing, expect_dev, include_empty).sizes).len()
            == if include_empty {
            count_files_listing(listing, false) as int
        } else {
            count_files_listing(listing, false) - count_files_listing(listing, true)
        },
{
    lemma_recorded_count(path, listing, expect_dev, include_empty);
    lemma_samples_of_len(walk_listing(path, listing, expect_dev, include_empty).sizes);
}

/// The traversal of a root whose tree is readable records one sample for
/// every regular file of the tree, less the empty ones where empty files
/// are left out, and reports nothing: with the filter off, and with the
/// filter on where the whole tree lies on the root's device.
pub proof fn lemma_regular_file_count(root: Root, config: Config)
    requires
        root_filter(root, config) is Off || root_filter(root, config) is On,
        readable_listing(root.listing, root_filter(root, config).expect_dev()),
    ensures
        samples_of(walk_root(root, config).sizes).len() == if config.include_empty {
            count_files_listing(root.listing, false) as int
        } else {
            count_files_listing(root.listing, false) - count_files_listing(root.listing, true)
        },
        walk_root(root, config).reports.len() == 0,
{
    let expect_dev = root_filter(root, config).expect_dev();
    lemma_histogram_count(root.path@, root.listing, expect_dev, config.include_empty);
    lemma_recorded_count(root.path@, root.listing, expect_dev, config.include_empty);
}

/// [`lemma_recorded_count`] for the entries of one listing.
pub proof fn lemma_recorded_count_entries(
    path: Seq<u8>,
    entries: Seq<Node>,
    expect_dev: Option<u64>,
    include_empty: bool,
)
    requires
        readable_entries(entries, expect_dev),
    ensures
        count_files_entries(entries, true) <= count_files_entries(entries, false),
        walk_entries(path, entries, expect_dev, include_empty).sizes.len() == if include_empty {
            count_files_entries(entries, false) as int
        } else {
            count_files_entries(entries, false) - count_files_entries(entries, true)
        },
        walk_entries(path, entries, expect_dev, include_empty).reports.len() == 0,
    decreases entries, entries.len(),
{
    if entries.len() == 0 {
    } else {
        lemma_recorded_count_entries(path, entries.drop_last(), expect_dev, include_empty);
        lemma_recorded_count_entry(path, entries.last(), expect_dev, include_empty);
    }
}

/// [`lemma_recorded_count`] for one entry.
pub proof fn lemma_recorded_count_entry(
    path: Seq<u8>,
    node: Node,
    expect_dev: Option<u64>,
    include_empty: bool,
)
    requires
        readable_entry(node, expect_dev),
    ensures
        count_files_entry(node, true) <= count_files_entry(node, false),
        walk_entry(path, node, expect_dev, include_empty).sizes.len() == if include_empty {
            count_files_entry(node, false) as int
        } else {
            count_files_entry(node, false) - count_files_entry(node, true)
        },
        walk_entry(path, node, expect_dev, include_empty).reports.len() == 0,
    decreases node, 0int,
{
    let stat = node.metadata->Ok_0;
    if stat.file_type.is_dir() {
        lemma_recorded_count(join(path, node.name@), node.listing, expect_dev, include_empty);
    }
}

} // verus!
