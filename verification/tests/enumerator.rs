use histodu::entry::FileType;
use histodu::enumerator::{grow, is_dot_name, Entry, Enumerator, ListEvent, Step, RECORD_HEADER};

fn entry(name: &str, file_type: FileType) -> Entry {
    Entry { name: name.as_bytes().to_vec(), file_type: Ok(file_type) }
}

/// A directory as the listing call sees it: the entries, and how far they have been read.
struct Listing {
    names: Vec<(String, FileType)>,
    pos: usize,
    calls: usize,
}

impl Listing {
    fn call(&mut self, capacity: usize) -> ListEvent {
        self.calls += 1;
        match self.names.get(self.pos) {
            None => ListEvent::End,
            Some((name, file_type)) => {
                if RECORD_HEADER + name.len() + 1 > capacity {
                    ListEvent::TooSmall
                } else {
                    self.pos += 1;
                    ListEvent::Entry(entry(name, *file_type))
                }
            }
        }
    }
}

fn enumerate(names: Vec<(String, FileType)>, capacity: usize) -> (Vec<String>, usize, usize) {
    let mut listing = Listing { names, pos: 0, calls: 0 };
    let mut enumerator = Enumerator::new(capacity);
    let mut yielded = Vec::new();
    let mut retries = 0;
    while !enumerator.ended() {
        match enumerator.on_listed(listing.call(enumerator.capacity())) {
            Step::Yield(e) => yielded.push(String::from_utf8(e.name).unwrap()),
            Step::Skip => {}
            Step::Retry(capacity) => {
                assert_eq!(capacity, enumerator.capacity());
                retries += 1;
            }
            Step::Done => {}
            Step::Abort(e) => panic!("listing failed with {e}"),
        }
        assert!(listing.calls < 100_000);
    }
    (yielded, retries, enumerator.capacity())
}

#[test]
fn tiny_buffer_yields_every_entry_once() {
    let mut names = vec![(".".to_string(), FileType::Dir), ("..".to_string(), FileType::Dir)];
    let mut expected = Vec::new();
    for k in 0..300usize {
        let name = format!("entry-{k}-{}", "x".repeat(k % 120));
        expected.push(name.clone());
        names.push((name, if k % 3 == 0 { FileType::Dir } else { FileType::File }));
    }
    for capacity in [0usize, 1, 2, 7, 64, 4096] {
        let (yielded, _, _) = enumerate(names.clone(), capacity);
        assert_eq!(yielded.len(), 300);
        assert_eq!(yielded, expected);
    }
}

#[test]
fn buffer_doubles_until_the_longest_name_fits() {
    let names = vec![("a".repeat(200), FileType::File), ("b".to_string(), FileType::File)];
    let (yielded, retries, capacity) = enumerate(names, 1);
    assert_eq!(yielded.len(), 2);
    // 19 + 200 + 1 = 220 bytes fit after growing 1 -> 2 -> ... -> 256.
    assert_eq!(retries, 8);
    assert_eq!(capacity, 256);
}

#[test]
fn large_enough_buffer_never_grows() {
    let names = vec![("a".to_string(), FileType::File), ("b".to_string(), FileType::Dir)];
    let (yielded, retries, capacity) = enumerate(names, 32768);
    assert_eq!(yielded, vec!["a".to_string(), "b".to_string()]);
    assert_eq!(retries, 0);
    assert_eq!(capacity, 32768);
}

#[test]
fn dot_entries_are_left_out_and_lookalikes_kept() {
    let names: Vec<(String, FileType)> = [".", "..", "...", ".a", "a.", "", ". ", ".x."]
        .iter()
        .map(|n| (n.to_string(), FileType::File))
        .collect();
    let (yielded, _, _) = enumerate(names, 64);
    assert_eq!(yielded, vec!["...", ".a", "a.", "", ". ", ".x."]);
    assert!(is_dot_name(&b".".to_vec()));
    assert!(is_dot_name(&b"..".to_vec()));
    assert!(!is_dot_name(&b"...".to_vec()));
    assert!(!is_dot_name(&b"".to_vec()));
    assert!(!is_dot_name(&b"a".to_vec()));
    assert!(!is_dot_name(&b".a".to_vec()));
    assert!(!is_dot_name(&b"a.".to_vec()));
}

#[test]
fn yielded_entries_keep_their_name_and_kind() {
    let mut enumerator = Enumerator::new(64);
    match enumerator.on_listed(ListEvent::Entry(entry("sub", FileType::Dir))) {
        Step::Yield(e) => {
            assert_eq!(e.name, b"sub".to_vec());
            assert_eq!(e.file_type, Ok(FileType::Dir));
        }
        _ => panic!("the entry is yielded"),
    }
    let unknown = Entry { name: b"odd".to_vec(), file_type: Err(5) };
    match enumerator.on_listed(ListEvent::Entry(unknown)) {
        Step::Yield(e) => assert_eq!(e.file_type, Err(5)),
        _ => panic!("the entry is yielded"),
    }
}

#[test]
fn empty_directory_ends_at_once() {
    let (yielded, retries, _) = enumerate(Vec::new(), 0);
    assert!(yielded.is_empty());
    assert_eq!(retries, 0);
}

#[test]
fn grow_doubles_and_stops_at_the_maximum() {
    assert_eq!(grow(0), 1);
    assert_eq!(grow(1), 2);
    assert_eq!(grow(2), 4);
    assert_eq!(grow(1000), 2000);
    assert_eq!(grow(usize::MAX / 2), usize::MAX - 1);
    assert_eq!(grow(usize::MAX / 2 + 1), usize::MAX);
    assert_eq!(grow(usize::MAX), usize::MAX);
}

#[test]
fn listing_failure_aborts_this_directory_for_good() {
    let mut enumerator = Enumerator::new(16);
    assert!(matches!(enumerator.on_listed(ListEvent::Entry(entry("a", FileType::File))), Step::Yield(_)));
    assert!(matches!(enumerator.on_listed(ListEvent::Failed(5)), Step::Abort(5)));
    assert!(enumerator.ended());
    // Once ended, the enumeration does not start again.
    assert!(matches!(enumerator.on_listed(ListEvent::Entry(entry("b", FileType::File))), Step::Done));
    assert!(matches!(enumerator.on_listed(ListEvent::TooSmall), Step::Done));
    assert_eq!(enumerator.capacity(), 16);
}

#[test]
fn end_of_listing_ends_the_enumeration() {
    let mut enumerator = Enumerator::new(16);
    assert!(!enumerator.ended());
    assert!(matches!(enumerator.on_listed(ListEvent::TooSmall), Step::Retry(32)));
    assert!(!enumerator.ended());
    assert!(matches!(enumerator.on_listed(ListEvent::Entry(entry("..", FileType::Dir))), Step::Skip));
    assert!(matches!(enumerator.on_listed(ListEvent::End), Step::Done));
    assert!(enumerator.ended());
    assert!(matches!(enumerator.on_listed(ListEvent::Failed(1)), Step::Done));
}
