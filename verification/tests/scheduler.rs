use histodu::batch::WorkerContext;
use histodu::scheduler::{pool_dir_size_histogram, DirectoryTask, PoolError, Scheduler};
use histodu::config::Config;
use histodu::entry::{FileType, Stat};
use histodu::traverse::dir_size_histogram;
use histodu::tree::{Listing, Node, Report, Root};

const HERE: u64 = 3;

fn plain_file(name: String, len: u64, dev: u64) -> Node {
    Node {
        name: name.into_bytes(),
        file_type: Ok(FileType::File),
        metadata: Ok(Stat { file_type: FileType::File, len, dev }),
        listing: Err(20),
    }
}

fn whole(entries: Vec<Node>) -> Result<Listing, i32> {
    Ok(Listing { entries, failure: None })
}

fn plain_dir(name: String, dev: u64, listing: Result<Listing, i32>) -> Node {
    Node {
        name: name.into_bytes(),
        file_type: Ok(FileType::Dir),
        metadata: Ok(Stat { file_type: FileType::Dir, len: 4096, dev }),
        listing,
    }
}

fn tree_root(entries: Vec<Node>) -> Root {
    Root {
        path: b"/t".to_vec(),
        metadata: Ok(Stat { file_type: FileType::Dir, len: 4096, dev: HERE }),
        listing: whole(entries),
        device_ids: true,
    }
}

fn settings(one_file_system: bool, include_empty: bool) -> Config {
    Config { one_file_system, include_empty, threads: 4 }
}

fn workers(threads: usize, one_file_system: bool, include_empty: bool) -> Config {
    Config { one_file_system, include_empty, threads }
}

fn sorted(reports: &[Report]) -> Vec<(String, i32)> {
    let mut all: Vec<(String, i32)> =
        reports.iter().map(|r| (String::from_utf8(r.path.clone()).unwrap(), r.error)).collect();
    all.sort();
    all
}

fn wide_and_deep(breadth: usize, depth: usize) -> Vec<Node> {
    let mut items = Vec::new();
    for i in 0..breadth {
        items.push(plain_file(format!("f{i}"), (i as u64) % 7, HERE));
    }
    items.push(plain_file(".".to_string(), 9, HERE));
    if depth > 0 {
        items.push(plain_dir("..".to_string(), HERE, whole(vec![plain_file("up".to_string(), 1, HERE)])));
        items.push(plain_dir(
            "down".to_string(),
            HERE,
            Ok(Listing { entries: wide_and_deep(breadth, depth - 1), failure: Some(5) }),
        ));
        items.push(plain_dir("locked".to_string(), HERE, Err(13)));
    }
    items
}

#[test]
fn ten_thousand_files_pass_through_a_ring_of_sixty_four() {
    let mut items = Vec::new();
    for i in 0..10_000u64 {
        items.push(plain_file(format!("f{i}"), i + 1, HERE));
    }
    let mut reports = Vec::new();
    let hist =
        pool_dir_size_histogram(&tree_root(items), &settings(false, false), 64, &mut reports)
            .unwrap();
    assert_eq!(hist.count(), 10_000);
    assert!(reports.is_empty());
}

#[test]
fn a_ring_of_one_slot_still_completes() {
    let mut reports = Vec::new();
    let hist = pool_dir_size_histogram(
        &tree_root(wide_and_deep(5, 3)),
        &settings(true, true),
        1,
        &mut reports,
    )
    .unwrap();
    assert_eq!(hist.count(), 20);
    assert_eq!(reports.len(), 6);
}

#[test]
fn any_number_of_workers_gathers_the_same_histogram() {
    let mut plain_reports = Vec::new();
    let plain = dir_size_histogram(
        &tree_root(wide_and_deep(11, 5)),
        &workers(1, false, false),
        &mut plain_reports,
    )
    .unwrap();
    for threads in [1usize, 2, 3, 7, 64] {
        let mut reports = Vec::new();
        let pooled = pool_dir_size_histogram(
            &tree_root(wide_and_deep(11, 5)),
            &workers(threads, false, false),
            8,
            &mut reports,
        )
        .unwrap();
        assert_eq!(pooled.count(), plain.count());
        assert_eq!(pooled.buckets(), plain.buckets());
        assert_eq!(sorted(&reports), sorted(&plain_reports));
    }
}

#[test]
fn the_pool_counts_regular_files_only() {
    let of_kind = |name: &str, file_type: FileType, len: u64| Node {
        name: name.as_bytes().to_vec(),
        file_type: Ok(file_type),
        metadata: Ok(Stat { file_type, len, dev: HERE }),
        listing: Err(20),
    };
    let tree = || {
        tree_root(vec![
            of_kind("link", FileType::Symlink, 5),
            plain_file("a".to_string(), 7, HERE),
            plain_dir(
                "d".to_string(),
                HERE,
                whole(vec![
                    of_kind("fifo", FileType::Other, 0),
                    plain_file("b".to_string(), 0, HERE),
                    of_kind("l2", FileType::Symlink, 0),
                ]),
            ),
            of_kind("sock", FileType::Other, 9),
        ])
    };
    for one_file_system in [false, true] {
        for (include_empty, expected) in [(true, 2), (false, 1)] {
            for capacity in [1usize, 4] {
                let mut reports = Vec::new();
                let hist = pool_dir_size_histogram(
                    &tree(),
                    &workers(3, one_file_system, include_empty),
                    capacity,
                    &mut reports,
                )
                .unwrap();
                assert_eq!(hist.count(), expected);
                assert_eq!(hist.count_below(7), expected);
                assert!(reports.is_empty());
            }
        }
    }
}

#[test]
fn a_pool_without_workers_is_refused() {
    let mut reports = Vec::new();
    let result =
        pool_dir_size_histogram(&tree_root(vec![]), &workers(0, true, true), 8, &mut reports);
    assert!(matches!(result, Err(PoolError::NoWorkers)));
    assert!(reports.is_empty());
    // The capacity is looked at first.
    let result =
        pool_dir_size_histogram(&tree_root(vec![]), &workers(0, true, true), 3, &mut reports);
    assert!(matches!(result, Err(PoolError::InvalidCapacity)));
}

#[test]
fn the_scheduler_hands_out_the_task_queued_last() {
    let open = Ok(histodu::tree::Listing { entries: vec![], failure: None });
    let shut = Err(13);
    let mut scheduler = Scheduler::new();
    assert!(scheduler.next_task().is_none());
    scheduler.spawn_traversal(DirectoryTask { path: b"/a".to_vec(), listing: &open });
    scheduler.spawn_traversal(DirectoryTask { path: b"/b".to_vec(), listing: &shut });
    let task = scheduler.next_task().unwrap();
    assert_eq!(task.path, b"/b".to_vec());
    assert!(task.listing.is_err());
    let task = scheduler.next_task().unwrap();
    assert_eq!(task.path, b"/a".to_vec());
    assert!(task.listing.is_ok());
    assert!(scheduler.next_task().is_none());
}

#[test]
fn batched_traversal_agrees_with_the_plain_one_for_every_capacity() {
    for capacity in [1usize, 2, 4, 8, 16, 32, 64] {
        for one_file_system in [false, true] {
            for include_empty in [false, true] {
                let config = settings(one_file_system, include_empty);
                let mut plain_reports = Vec::new();
                let plain =
                    dir_size_histogram(&tree_root(wide_and_deep(9, 4)), &config, &mut plain_reports)
                        .unwrap();
                let mut reports = Vec::new();
                let batched = pool_dir_size_histogram(
                    &tree_root(wide_and_deep(9, 4)),
                    &config,
                    capacity,
                    &mut reports,
                )
                .unwrap();
                assert_eq!(batched.count(), plain.count());
                assert_eq!(batched.buckets(), plain.buckets());
                assert_eq!(sorted(&reports), sorted(&plain_reports));
            }
        }
    }
}

#[test]
fn batched_traversal_honours_the_device_filter() {
    let items = vec![
        plain_file("here".to_string(), 10, HERE),
        plain_dir(
            "mnt".to_string(),
            99,
            whole(vec![plain_file("there".to_string(), 20, 99), plain_file("x".to_string(), 1, HERE)]),
        ),
        plain_dir("near".to_string(), HERE, whole(vec![plain_file("kept".to_string(), 50, HERE)])),
    ];
    let mut reports = Vec::new();
    let hist =
        pool_dir_size_histogram(&tree_root(items), &settings(true, true), 2, &mut reports)
            .unwrap();
    assert_eq!(hist.count(), 2);
    assert_eq!(hist.count_below(50), 2);
    assert_eq!(hist.count_below(10), 1);
    assert!(reports.is_empty());
}

#[test]
fn batched_traversal_reports_an_unreadable_subdirectory_once() {
    let items = vec![
        plain_dir("a".to_string(), HERE, whole(vec![plain_file("1".to_string(), 1, HERE)])),
        plain_dir("locked".to_string(), HERE, Err(13)),
        plain_dir("b".to_string(), HERE, whole(vec![plain_file("2".to_string(), 2, HERE)])),
    ];
    for one_file_system in [false, true] {
        let mut reports = Vec::new();
        let hist = pool_dir_size_histogram(
            &tree_root(items_clone(&items)),
            &settings(one_file_system, false),
            4,
            &mut reports,
        )
        .unwrap();
        assert_eq!(hist.count(), 2);
        assert_eq!(sorted(&reports), vec![("/t/locked".to_string(), 13)]);
    }
}

fn items_clone(items: &[Node]) -> Vec<Node> {
    items
        .iter()
        .map(|node| Node {
            name: node.name.clone(),
            file_type: node.file_type,
            metadata: node.metadata,
            listing: match &node.listing {
                Ok(found) => {
                    Ok(Listing { entries: items_clone(&found.entries), failure: found.failure })
                }
                Err(e) => Err(*e),
            },
        })
        .collect()
}

#[test]
fn invalid_ring_capacity_is_refused() {
    for capacity in [0usize, 3, 65, 128] {
        let mut reports = Vec::new();
        let result =
            pool_dir_size_histogram(&tree_root(vec![]), &settings(false, false), capacity, &mut reports);
        assert!(matches!(result, Err(PoolError::InvalidCapacity)));
        assert!(reports.is_empty());
        assert!(WorkerContext::new(capacity).is_none());
    }
}

#[test]
fn root_without_metadata_is_unavailable_under_the_filter() {
    let root = Root { path: b"/t".to_vec(), metadata: Err(2), listing: whole(vec![]), device_ids: true };
    let mut reports = Vec::new();
    let result = pool_dir_size_histogram(&root, &settings(true, false), 8, &mut reports);
    assert!(matches!(result, Err(PoolError::RootUnavailable)));
    assert_eq!(sorted(&reports), vec![("/t".to_string(), 2)]);
}

#[test]
fn batched_traversal_goes_on_without_an_unsupported_filter() {
    let root = Root {
        path: b"/t".to_vec(),
        metadata: Err(2),
        listing: whole(vec![plain_file("a".to_string(), 1, 1), plain_file("b".to_string(), 2, 2)]),
        device_ids: false,
    };
    let mut reports = Vec::new();
    let hist = pool_dir_size_histogram(&root, &settings(true, false), 8, &mut reports).unwrap();
    assert_eq!(hist.count(), 2);
    assert_eq!(sorted(&reports), vec![("/t".to_string(), 95)]);
}

