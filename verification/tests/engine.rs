use histodu::engine::{
    decode_tag, encode_tag, plan_entry, route, BatchEngine, Completion, Plan, Route,
};
use histodu::entry::{FileType, Stat};
use histodu::ring::OpKind;

fn stat_of(file_type: FileType, len: u64, dev: u64) -> Completion {
    Completion::Stat(Ok(Stat { file_type, len, dev }))
}

#[test]
fn tags_are_twice_the_slot_plus_the_kind() {
    assert_eq!(encode_tag(0, OpKind::Stat), 0);
    assert_eq!(encode_tag(0, OpKind::OpenDir), 1);
    assert_eq!(encode_tag(5, OpKind::Stat), 10);
    assert_eq!(encode_tag(63, OpKind::OpenDir), 127);
}

#[test]
fn tags_round_trip_for_every_slot_and_kind() {
    for slot in 0..64usize {
        for kind in [OpKind::Stat, OpKind::OpenDir] {
            assert_eq!(decode_tag(encode_tag(slot, kind)), Some((slot, kind)));
        }
    }
    assert_eq!(decode_tag(128), None);
    assert_eq!(decode_tag(u64::MAX), None);
}

#[test]
fn plan_without_filter_goes_by_the_listed_kind() {
    assert_eq!(plan_entry(Ok(FileType::Dir), None), Plan::Enqueue(OpKind::OpenDir));
    assert_eq!(plan_entry(Ok(FileType::File), None), Plan::Enqueue(OpKind::Stat));
    assert_eq!(plan_entry(Ok(FileType::Symlink), None), Plan::Skip);
    assert_eq!(plan_entry(Ok(FileType::Other), None), Plan::Skip);
    assert_eq!(plan_entry(Err(5), None), Plan::Report(5));
}

#[test]
fn plan_under_the_filter_looks_everything_up() {
    assert_eq!(plan_entry(Ok(FileType::Dir), Some(1)), Plan::Enqueue(OpKind::Stat));
    assert_eq!(plan_entry(Ok(FileType::File), Some(1)), Plan::Enqueue(OpKind::Stat));
    assert_eq!(plan_entry(Ok(FileType::Symlink), Some(1)), Plan::Enqueue(OpKind::Stat));
    assert_eq!(plan_entry(Ok(FileType::Other), Some(1)), Plan::Enqueue(OpKind::Stat));
    assert_eq!(plan_entry(Err(5), Some(1)), Plan::Enqueue(OpKind::Stat));
}

#[test]
fn lookups_route_by_size_and_empty_policy() {
    assert_eq!(route(OpKind::Stat, stat_of(FileType::File, 9, 1), None, false), Route::Record(9));
    assert_eq!(route(OpKind::Stat, stat_of(FileType::File, 0, 1), None, false), Route::Skip);
    assert_eq!(route(OpKind::Stat, stat_of(FileType::File, 0, 1), None, true), Route::Record(0));
    assert_eq!(route(OpKind::Stat, Completion::Stat(Err(13)), None, true), Route::Report(13));
    // Only a regular file is recorded; a lookup that finds a directory opens it.
    assert_eq!(route(OpKind::Stat, stat_of(FileType::Dir, 4096, 1), None, false), Route::Open);
    assert_eq!(route(OpKind::Stat, stat_of(FileType::Symlink, 9, 1), None, true), Route::Skip);
    assert_eq!(route(OpKind::Stat, stat_of(FileType::Other, 9, 1), None, true), Route::Skip);
}

#[test]
fn lookups_under_the_filter_compare_devices_first() {
    assert_eq!(route(OpKind::Stat, stat_of(FileType::File, 9, 2), Some(1), true), Route::Skip);
    assert_eq!(route(OpKind::Stat, stat_of(FileType::Dir, 9, 2), Some(1), true), Route::Skip);
    assert_eq!(route(OpKind::Stat, stat_of(FileType::File, 9, 1), Some(1), true), Route::Record(9));
    assert_eq!(route(OpKind::Stat, stat_of(FileType::Dir, 9, 1), Some(1), true), Route::Open);
    assert_eq!(route(OpKind::Stat, stat_of(FileType::Symlink, 9, 1), Some(1), true), Route::Skip);
    assert_eq!(route(OpKind::Stat, stat_of(FileType::Other, 0, 1), Some(1), true), Route::Skip);
    assert_eq!(route(OpKind::Stat, Completion::Stat(Err(2)), Some(1), true), Route::Report(2));
}

#[test]
fn opens_route_to_a_task_or_a_report() {
    assert_eq!(route(OpKind::OpenDir, Completion::Opened(Ok(8)), None, false), Route::Spawn(8));
    assert_eq!(route(OpKind::OpenDir, Completion::Opened(Err(13)), Some(1), false), Route::Report(13));
}

#[test]
fn completions_of_the_other_kind_are_mismatches() {
    assert_eq!(route(OpKind::OpenDir, stat_of(FileType::File, 1, 1), None, false), Route::Mismatch);
    assert_eq!(route(OpKind::Stat, Completion::Opened(Ok(1)), None, false), Route::Mismatch);
    assert_eq!(route(OpKind::Stat, Completion::Opened(Err(1)), None, false), Route::Mismatch);
}

#[test]
fn engine_queues_in_lowest_free_slot_and_submits_in_order() {
    let mut engine = BatchEngine::new(4).unwrap();
    assert_eq!(engine.capacity(), 4);
    assert!(engine.is_drained());
    let a = engine.enqueue(OpKind::Stat, 10, b"a".to_vec()).unwrap();
    let b = engine.enqueue(OpKind::OpenDir, 11, b"b".to_vec()).unwrap();
    let c = engine.enqueue(OpKind::Stat, 12, b"c".to_vec()).unwrap();
    assert_eq!((a, b, c), (0, 3, 4));
    assert_eq!(engine.unsubmitted(), 3);
    assert_eq!(engine.pending(), 3);
    assert_eq!(engine.flush(), vec![0, 3, 4]);
    assert_eq!(engine.unsubmitted(), 0);
    assert_eq!(engine.pending(), 3);
    assert_eq!(engine.lowest_pending(), Some(0));

    // Completing the middle one frees slot 1, which the next operation takes.
    let op = engine.take_completed(b).unwrap();
    assert_eq!((op.kind, op.entry, op.name), (OpKind::OpenDir, 11, b"b".to_vec()));
    let d = engine.enqueue(OpKind::Stat, 13, b"d".to_vec()).unwrap();
    assert_eq!(d, 2);
    assert_eq!(engine.operation_at(1), Some((OpKind::Stat, 13)));
    assert_eq!(engine.operation_at(3), None);
    assert_eq!(engine.flush(), vec![2]);
    assert_eq!(engine.flush(), Vec::<u64>::new());
}

#[test]
fn engine_gives_nothing_for_free_unsubmitted_or_mistagged_slots() {
    let mut engine = BatchEngine::new(2).unwrap();
    assert!(engine.take_completed(0).is_none());
    assert!(engine.take_completed(200).is_none());
    let tag = engine.enqueue(OpKind::Stat, 0, b"a".to_vec()).unwrap();
    assert!(engine.take_completed(tag).is_none());
    engine.flush();
    assert!(engine.take_completed(tag + 1).is_none());
    assert!(engine.take_completed(2).is_none());
    assert_eq!(engine.pending(), 1);
    assert!(engine.take_completed(tag).is_some());
    assert!(engine.take_completed(tag).is_none());
    assert!(engine.is_drained());
    assert_eq!(engine.lowest_pending(), None);
}

#[test]
fn full_engine_hands_the_name_back() {
    let mut engine = BatchEngine::new(1).unwrap();
    engine.enqueue(OpKind::Stat, 0, b"a".to_vec()).unwrap();
    assert!(engine.is_full());
    assert_eq!(engine.enqueue(OpKind::Stat, 1, b"b".to_vec()), Err(b"b".to_vec()));
    assert_eq!(engine.pending(), 1);
    assert_eq!(engine.unsubmitted(), 1);
}

#[test]
fn engine_capacity_must_be_a_power_of_two_up_to_sixty_four() {
    for capacity in 0..200usize {
        let valid = [1, 2, 4, 8, 16, 32, 64].contains(&capacity);
        assert_eq!(BatchEngine::new(capacity).is_some(), valid);
    }
}
