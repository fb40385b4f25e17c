use histodu::config::Config;
use histodu::entry::{FileType, Stat};
use histodu::traverse::{dir_size_histogram, path_join, traverse_dir};
use histodu::tree::{Listing, Node, Report, Root};
use histodu::histogram::SizeHistogram;

const DEV: u64 = 7;

fn file_on(name: &str, len: u64, dev: u64) -> Node {
    Node {
        name: name.as_bytes().to_vec(),
        file_type: Ok(FileType::File),
        metadata: Ok(Stat { file_type: FileType::File, len, dev }),
        listing: Err(20),
    }
}

fn file(name: &str, len: u64) -> Node {
    file_on(name, len, DEV)
}

fn complete(entries: Vec<Node>) -> Result<Listing, i32> {
    Ok(Listing { entries, failure: None })
}

fn dir_on(name: &str, dev: u64, listing: Result<Listing, i32>) -> Node {
    Node {
        name: name.as_bytes().to_vec(),
        file_type: Ok(FileType::Dir),
        metadata: Ok(Stat { file_type: FileType::Dir, len: 4096, dev }),
        listing,
    }
}

fn dir(name: &str, entries: Vec<Node>) -> Node {
    dir_on(name, DEV, complete(entries))
}

fn root(entries: Vec<Node>) -> Root {
    Root {
        path: b"/r".to_vec(),
        metadata: Ok(Stat { file_type: FileType::Dir, len: 4096, dev: DEV }),
        listing: complete(entries),
        device_ids: true,
    }
}

fn config(one_file_system: bool, include_empty: bool) -> Config {
    Config { one_file_system, include_empty, threads: 1 }
}

fn paths(reports: &[Report]) -> Vec<(String, i32)> {
    reports.iter().map(|r| (String::from_utf8(r.path.clone()).unwrap(), r.error)).collect()
}

fn four_files() -> Root {
    root(vec![
        file("empty", 0),
        file("small", 100),
        dir("sub", vec![file("page", 4096)]),
        file("big", 1_000_000),
    ])
}

#[test]
fn empty_files_are_excluded_by_default() {
    let mut reports = Vec::new();
    let hist = dir_size_histogram(&four_files(), &config(false, false), &mut reports).unwrap();
    assert_eq!(hist.count(), 3);
    assert_eq!(hist.count_below(0), 0);
    assert_eq!(hist.count_below(100), 1);
    assert_eq!(hist.count_below(4096), 2);
    assert_eq!(hist.count_below(1_000_000), 3);
    assert!(reports.is_empty());
}

#[test]
fn empty_files_are_counted_when_included() {
    let mut reports = Vec::new();
    let hist = dir_size_histogram(&four_files(), &config(false, true), &mut reports).unwrap();
    assert_eq!(hist.count(), 4);
    assert_eq!(hist.count_below(0), 1);
    assert!(reports.is_empty());
}

#[test]
fn recorded_count_is_files_minus_excluded_for_both_settings() {
    let tree = || {
        root(vec![
            file("a", 0),
            dir("d1", vec![file("b", 0), file("c", 5), dir("d2", vec![file("e", 9), file("f", 0)])]),
            file("g", 1),
            dir("d3", vec![]),
        ])
    };
    let mut reports = Vec::new();
    let with = dir_size_histogram(&tree(), &config(false, true), &mut reports).unwrap();
    let without = dir_size_histogram(&tree(), &config(false, false), &mut reports).unwrap();
    assert_eq!(with.count(), 6);
    assert_eq!(without.count(), 6 - 3);
    assert!(reports.is_empty());
}

#[test]
fn quantiles_of_the_four_file_tree_are_within_resolution() {
    let mut reports = Vec::new();
    let hist = dir_size_histogram(&four_files(), &config(false, false), &mut reports).unwrap();
    let mut rebuilt = hdrhistogram::Histogram::<u64>::new(3).unwrap();
    for (value, count) in hist.buckets() {
        rebuilt.record_n(value, count).unwrap();
    }
    assert_eq!(rebuilt.len(), 3);
    let top = rebuilt.value_at_quantile(1.0);
    assert!(top >= 1_000_000 && top - 1_000_000 <= 1_000_000 / 1024);
    let ninety = rebuilt.value_at_quantile(0.9);
    assert_eq!(ninety, top);
    let median = rebuilt.value_at_quantile(0.5);
    assert!(median >= 4096 && median - 4096 <= 4096 / 1024);
    assert_eq!(rebuilt.value_at_quantile(0.0), 100);
}

#[test]
fn other_device_subtree_is_excluded_under_one_file_system() {
    let tree = root(vec![
        file("here", 10),
        dir_on("mnt", 99, complete(vec![file_on("there", 20, 99), file_on("also", 30, DEV)])),
        file_on("foreign", 40, 99),
        dir("near", vec![file("kept", 50)]),
    ]);
    let mut reports = Vec::new();
    let hist = dir_size_histogram(&tree, &config(true, true), &mut reports).unwrap();
    assert_eq!(hist.count(), 2);
    assert_eq!(hist.count_below(10), 1);
    assert_eq!(hist.count_below(50), 2);
    assert!(reports.is_empty());
}

#[test]
fn other_device_subtree_is_entered_without_the_filter() {
    let tree = root(vec![
        file("here", 10),
        dir_on("mnt", 99, complete(vec![file_on("there", 20, 99)])),
    ]);
    let mut reports = Vec::new();
    let hist = dir_size_histogram(&tree, &config(false, true), &mut reports).unwrap();
    assert_eq!(hist.count(), 2);
}

#[test]
fn unreadable_subdirectory_costs_one_report_and_spares_siblings() {
    let tree = root(vec![
        dir("before", vec![file("a", 1), file("b", 2)]),
        dir_on("locked", DEV, Err(13)),
        dir("after", vec![file("c", 3)]),
        file("d", 4),
    ]);
    let mut reports = Vec::new();
    let hist = dir_size_histogram(&tree, &config(false, false), &mut reports).unwrap();
    assert_eq!(hist.count(), 4);
    assert_eq!(paths(&reports), vec![("/r/locked".to_string(), 13)]);
}

#[test]
fn unreadable_root_listing_is_reported_at_the_root() {
    let tree = Root { path: b"/r".to_vec(), metadata: Err(2), listing: Err(13), device_ids: true };
    let mut reports = Vec::new();
    let hist = dir_size_histogram(&tree, &config(false, false), &mut reports).unwrap();
    assert_eq!(hist.count(), 0);
    assert_eq!(paths(&reports), vec![("/r".to_string(), 13)]);
}

#[test]
fn root_metadata_failure_is_fatal_only_under_the_filter() {
    let tree = || Root { path: b"/r".to_vec(), metadata: Err(2), listing: complete(vec![file("a", 1)]), device_ids: true };
    let mut reports = Vec::new();
    assert!(dir_size_histogram(&tree(), &config(true, false), &mut reports).is_err());
    assert_eq!(paths(&reports), vec![("/r".to_string(), 2)]);
    let mut reports = Vec::new();
    let hist = dir_size_histogram(&tree(), &config(false, false), &mut reports).unwrap();
    assert_eq!(hist.count(), 1);
    assert!(reports.is_empty());
}

#[test]
fn unsupported_filter_is_reported_once_and_left_off() {
    let tree = Root {
        path: b"/r".to_vec(),
        metadata: Err(2),
        listing: complete(vec![file_on("a", 1, 1), dir_on("d", 2, complete(vec![file_on("b", 2, 3)]))]),
        device_ids: false,
    };
    let mut reports = Vec::new();
    let hist = dir_size_histogram(&tree, &config(true, false), &mut reports).unwrap();
    assert_eq!(hist.count(), 2);
    assert_eq!(paths(&reports), vec![("/r".to_string(), 95)]);
    // Without the filter nothing is said about it.
    let mut reports = Vec::new();
    let hist = dir_size_histogram(&tree, &config(false, false), &mut reports).unwrap();
    assert_eq!(hist.count(), 2);
    assert!(reports.is_empty());
}

#[test]
fn failures_are_reported_in_walk_order_with_their_paths() {
    let cut = Node {
        name: b"sub".to_vec(),
        file_type: Ok(FileType::Dir),
        metadata: Ok(Stat { file_type: FileType::Dir, len: 0, dev: DEV }),
        listing: Ok(Listing { entries: vec![file("ok", 8)], failure: Some(6) }),
    };
    let tree = Root {
        path: b"/r".to_vec(),
        metadata: Err(2),
        listing: Ok(Listing {
            entries: vec![
                Node {
                    name: b"notype".to_vec(),
                    file_type: Err(1),
                    metadata: Ok(Stat { file_type: FileType::File, len: 3, dev: DEV }),
                    listing: Err(20),
                },
                Node {
                    name: b"nometa".to_vec(),
                    file_type: Ok(FileType::File),
                    metadata: Err(2),
                    listing: Err(20),
                },
                cut,
                file("last", 9),
            ],
            failure: Some(5),
        }),
        device_ids: true,
    };
    let mut reports = Vec::new();
    let hist = dir_size_histogram(&tree, &config(false, false), &mut reports).unwrap();
    assert_eq!(hist.count(), 2);
    assert_eq!(
        paths(&reports),
        vec![
            ("/r/notype".to_string(), 1),
            ("/r/nometa".to_string(), 2),
            ("/r/sub".to_string(), 6),
            ("/r".to_string(), 5),
        ]
    );
}

#[test]
fn a_listing_cut_short_keeps_the_entries_it_yielded() {
    let tree = Root {
        path: b"/r".to_vec(),
        metadata: Err(2),
        listing: Ok(Listing { entries: vec![file("a", 1), file("b", 2)], failure: Some(5) }),
        device_ids: true,
    };
    let mut reports = Vec::new();
    let hist = dir_size_histogram(&tree, &config(false, true), &mut reports).unwrap();
    assert_eq!(hist.count(), 2);
    assert_eq!(paths(&reports), vec![("/r".to_string(), 5)]);
}

#[test]
fn under_the_filter_the_metadata_decides_alone() {
    let tree = root(vec![Node {
        name: b"notype".to_vec(),
        file_type: Err(1),
        metadata: Ok(Stat { file_type: FileType::File, len: 3, dev: DEV }),
        listing: Err(20),
    }]);
    let mut reports = Vec::new();
    let hist = dir_size_histogram(&tree, &config(true, false), &mut reports).unwrap();
    assert_eq!(hist.count(), 1);
    assert!(reports.is_empty());
}

fn link(name: &str, len: u64) -> Node {
    Node {
        name: name.as_bytes().to_vec(),
        file_type: Ok(FileType::Symlink),
        metadata: Ok(Stat { file_type: FileType::Symlink, len, dev: DEV }),
        listing: complete(vec![file("never", 1)]),
    }
}

fn special(name: &str, len: u64) -> Node {
    Node {
        name: name.as_bytes().to_vec(),
        file_type: Ok(FileType::Other),
        metadata: Ok(Stat { file_type: FileType::Other, len, dev: DEV }),
        listing: Err(20),
    }
}

#[test]
fn links_and_special_files_are_left_out() {
    for one_file_system in [false, true] {
        for include_empty in [false, true] {
            let tree = root(vec![link("link", 11), special("fifo", 0), special("dev", 7)]);
            let mut reports = Vec::new();
            let hist =
                dir_size_histogram(&tree, &config(one_file_system, include_empty), &mut reports)
                    .unwrap();
            assert_eq!(hist.count(), 0);
            assert!(hist.buckets().is_empty());
            assert!(reports.is_empty());
        }
    }
}

#[test]
fn a_lone_link_of_five_bytes_leaves_no_sample() {
    let mut reports = Vec::new();
    let hist =
        dir_size_histogram(&root(vec![link("l", 5)]), &config(false, true), &mut reports).unwrap();
    assert_eq!(hist.count(), 0);
    assert_eq!(hist.count_below(u64::MAX), 0);
    assert!(reports.is_empty());
}

#[test]
fn only_regular_files_are_counted_among_all_kinds() {
    let tree = || {
        root(vec![
            file("a", 0),
            link("to-a", 1),
            dir("d", vec![file("b", 20), special("sock", 0), link("to-b", 0), dir("e", vec![file("c", 0)])]),
            special("fifo", 0),
            file("f", 3),
        ])
    };
    for one_file_system in [false, true] {
        let mut reports = Vec::new();
        let with =
            dir_size_histogram(&tree(), &config(one_file_system, true), &mut reports).unwrap();
        let without =
            dir_size_histogram(&tree(), &config(one_file_system, false), &mut reports).unwrap();
        // Four regular files, two of them empty.
        assert_eq!(with.count(), 4);
        assert_eq!(without.count(), 2);
        assert_eq!(with.buckets(), vec![(0, 2), (3, 1), (20, 1)]);
        assert_eq!(without.buckets(), vec![(3, 1), (20, 1)]);
        assert!(reports.is_empty());
    }
}

#[test]
fn a_link_is_not_looked_up_without_the_filter() {
    // Its lookup would fail, but nothing asks: the listing says what it is.
    let dangling = Node {
        name: b"dangling".to_vec(),
        file_type: Ok(FileType::Symlink),
        metadata: Err(2),
        listing: Err(2),
    };
    let mut reports = Vec::new();
    let hist = dir_size_histogram(&root(vec![dangling]), &config(false, true), &mut reports).unwrap();
    assert_eq!(hist.count(), 0);
    assert!(reports.is_empty());
}

#[test]
fn metadata_that_finds_a_directory_is_followed() {
    // Listed as a regular file, found to be a directory by the lookup.
    let turned = Node {
        name: b"turned".to_vec(),
        file_type: Ok(FileType::File),
        metadata: Ok(Stat { file_type: FileType::Dir, len: 4096, dev: DEV }),
        listing: complete(vec![file("inside", 6)]),
    };
    let mut reports = Vec::new();
    let hist = dir_size_histogram(&root(vec![turned]), &config(false, true), &mut reports).unwrap();
    assert_eq!(hist.buckets(), vec![(6, 1)]);
}

#[test]
fn dot_entries_are_passed_over() {
    let tree = root(vec![
        dir(".", vec![file("loop", 1)]),
        dir("..", vec![file("up", 2)]),
        file(".", 3),
        file("...", 4),
        dir(".hidden", vec![file(".", 5), file(".x", 6)]),
    ]);
    let mut reports = Vec::new();
    let hist = dir_size_histogram(&tree, &config(false, true), &mut reports).unwrap();
    assert_eq!(hist.buckets(), vec![(4, 1), (6, 1)]);
    assert!(reports.is_empty());
}

#[test]
fn traverse_dir_adds_to_what_is_there() {
    let mut hist = SizeHistogram::new();
    hist.record(1);
    let mut reports = vec![Report { path: b"old".to_vec(), error: 1 }];
    traverse_dir(
        &b"/x".to_vec(),
        &complete(vec![file("a", 2), dir_on("d", DEV, Err(13))]),
        None,
        &config(false, false),
        &mut hist,
        &mut reports,
    );
    assert_eq!(hist.count(), 2);
    assert_eq!(paths(&reports), vec![("old".to_string(), 1), ("/x/d".to_string(), 13)]);
}

#[test]
fn path_join_puts_one_separator_between() {
    assert_eq!(path_join(&b"/a/b".to_vec(), &b"c".to_vec()), b"/a/b/c".to_vec());
    assert_eq!(path_join(&b"".to_vec(), &b"".to_vec()), b"/".to_vec());
}
