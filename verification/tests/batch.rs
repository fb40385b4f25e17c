use histodu::batch::{WorkerContext, ENTRY_BUFFER};
use histodu::engine::{decode_tag, Completion, Route};
use histodu::entry::{FileType, Stat};
use histodu::enumerator::{Enumerator, ListEvent, Step};
use histodu::ring::OpKind;

#[test]
fn worker_context_routes_completions_and_guards_teardown() {
    let mut ctx = WorkerContext::new(2).unwrap();
    assert_eq!(ctx.pending(), 0);
    let stat = ctx.enqueue(OpKind::Stat, 0, b"file".to_vec()).unwrap();
    let open = ctx.enqueue(OpKind::OpenDir, 1, b"dir".to_vec()).unwrap();
    assert_eq!(decode_tag(stat), Some((0, OpKind::Stat)));
    assert_eq!(decode_tag(open), Some((1, OpKind::OpenDir)));
    assert!(ctx.is_full());
    assert_eq!(ctx.enqueue(OpKind::Stat, 2, b"late".to_vec()), Err(b"late".to_vec()));

    // Nothing completes before it has been submitted.
    let answer = Completion::Stat(Ok(Stat { file_type: FileType::File, len: 42, dev: 1 }));
    assert!(ctx.complete(stat, answer, None, false).is_none());
    assert_eq!(ctx.flush(), vec![stat, open]);

    // A tag of the wrong kind names no operation.
    assert!(ctx.complete(stat + 1, answer, None, false).is_none());
    let done = ctx.complete(stat, answer, None, false).unwrap();
    assert_eq!(done.route, Route::Record(42));
    assert_eq!(done.entry, 0);
    assert_eq!(done.name, b"file".to_vec());
    // The slot is free again, and a second completion finds nothing.
    assert!(ctx.complete(stat, answer, None, false).is_none());
    assert_eq!(ctx.pending(), 1);

    let done = ctx.complete(open, Completion::Opened(Ok(17)), None, false).unwrap();
    assert_eq!(done.route, Route::Spawn(17));
    assert_eq!(done.name, b"dir".to_vec());
    assert_eq!(ctx.operation_at(0), None);
    let hist = ctx.finish().ok().unwrap();
    assert_eq!(hist.count(), 1);
    assert_eq!(hist.count_below(42), 1);
    assert_eq!(hist.count_below(41), 0);
}

#[test]
fn the_entry_buffer_is_kept_from_one_directory_to_the_next() {
    let mut ctx = WorkerContext::new(1).unwrap();
    let mut first = ctx.begin_listing();
    assert_eq!(first.capacity(), ENTRY_BUFFER);
    assert_eq!(ENTRY_BUFFER, 32768);
    assert!(matches!(first.on_listed(ListEvent::TooSmall), Step::Retry(65536)));
    assert!(matches!(first.on_listed(ListEvent::TooSmall), Step::Retry(131072)));
    ctx.end_listing(first);
    // The next directory starts with the grown buffer, and a directory
    // that needed less does not shrink it.
    let second = ctx.begin_listing();
    assert_eq!(second.capacity(), 131072);
    assert!(!second.ended());
    ctx.end_listing(Enumerator::new(16));
    assert_eq!(ctx.begin_listing().capacity(), 131072);
}

#[test]
fn teardown_with_pending_operations_is_a_violation() {
    let mut ctx = WorkerContext::new(4).unwrap();
    ctx.enqueue(OpKind::Stat, 0, b"a".to_vec()).unwrap();
    ctx.enqueue(OpKind::Stat, 1, b"b".to_vec()).unwrap();
    assert!(matches!(ctx.finish(), Err(2)));
}
