use operation_tracker::model::{Operation, OperationStatus, OperationType};
use operation_tracker::time::Timestamp;
use operation_tracker::tracker::{OperationTracker, TrackerError};

fn at(secs: i64) -> Timestamp {
    Timestamp { secs, nanos: 0 }
}

fn pending(id: &str, secs: i64) -> Operation {
    Operation::pending(
        id.to_string(),
        OperationType::Upload,
        "src".to_string(),
        "/path".to_string(),
        None,
        None,
        None,
        None,
        at(secs),
    )
}

fn owned(id: &str, user: Option<&str>, org: Option<&str>, secs: i64) -> Operation {
    Operation::pending(
        id.to_string(),
        OperationType::Download,
        "src".to_string(),
        "/path".to_string(),
        None,
        None,
        user.map(|u| u.to_string()),
        org.map(|o| o.to_string()),
        at(secs),
    )
}

fn ids(ops: &[Operation]) -> Vec<String> {
    ops.iter().map(|op| op.operation_id.clone()).collect()
}

#[test]
fn create_returns_id_and_record_echoes_fields() {
    let mut tracker = OperationTracker::new(10);
    let id = tracker.create_operation(
        OperationType::Upload,
        "s1".to_string(),
        "/a".to_string(),
        Some("/b".to_string()),
        Some(100),
    );
    let op = tracker.get_operation(&id).unwrap();
    assert_eq!(op.operation_id, id);
    assert_eq!(op.operation_type, OperationType::Upload);
    assert_eq!(op.source_id, "s1");
    assert_eq!(op.source_path, "/a");
    assert_eq!(op.destination_path.as_deref(), Some("/b"));
    assert_eq!(op.file_size, Some(100));
    assert_eq!(op.bytes_processed, 0);
    assert_eq!(op.status, OperationStatus::Pending);
    assert_eq!(op.error, None);
    assert_eq!(op.user_id, None);
    assert_eq!(op.organization_id, None);
    assert!(op.created_at.is_some());
    assert_eq!(op.created_at, op.last_updated_at);
    assert_eq!(op.completed_at, None);
}

#[test]
fn create_with_context_keeps_user_and_organization() {
    let mut tracker = OperationTracker::new(10);
    let id = tracker.create_operation_with_context(
        OperationType::Move,
        "s1".to_string(),
        "/a".to_string(),
        None,
        None,
        Some("u1".to_string()),
        Some("o1".to_string()),
    );
    let op = tracker.get_operation(&id).unwrap();
    assert_eq!(op.operation_type, OperationType::Move);
    assert_eq!(op.user_id.as_deref(), Some("u1"));
    assert_eq!(op.organization_id.as_deref(), Some("o1"));
    assert_eq!(op.destination_path, None);
    assert_eq!(op.file_size, None);
}

#[test]
fn fresh_ids_are_hyphenated_and_differ() {
    let mut tracker = OperationTracker::new(10);
    let a = tracker.create_operation(
        OperationType::Copy,
        "s".to_string(),
        "/a".to_string(),
        None,
        None,
    );
    let b = tracker.create_operation(
        OperationType::Copy,
        "s".to_string(),
        "/a".to_string(),
        None,
        None,
    );
    assert_eq!(a.chars().count(), 36);
    assert_eq!(b.chars().count(), 36);
    assert_eq!(a.chars().filter(|c| *c == '-').count(), 4);
    assert_ne!(a, b);
    assert_eq!(tracker.get_all_operations().len(), 2);
}

#[test]
fn created_at_is_the_present() {
    let mut tracker = OperationTracker::new(10);
    let id = tracker.create_operation(
        OperationType::Delete,
        "s".to_string(),
        "/a".to_string(),
        None,
        None,
    );
    let created = tracker.get_operation(&id).unwrap().created_at.unwrap();
    // Later than the first of January 2020, and with a valid fraction.
    assert!(created.secs > 1_577_836_800);
    assert!(created.nanos < 2_000_000_000);
}

#[test]
fn progress_sets_status_and_bytes() {
    let mut tracker = OperationTracker::new(10);
    let id = tracker.create_operation(
        OperationType::Upload,
        "s1".to_string(),
        "/a".to_string(),
        None,
        Some(100),
    );
    tracker.update_progress(&id, 50);
    let op = tracker.get_operation(&id).unwrap();
    assert_eq!(op.status, OperationStatus::InProgress);
    assert_eq!(op.bytes_processed, 50);
    assert_eq!(op.file_size, Some(100));
}

#[test]
fn progress_at_overwrites_without_clamping() {
    let mut tracker = OperationTracker::new(10);
    tracker.store(pending("a", 1));
    tracker.update_progress_at("a", 80, at(2));
    tracker.update_progress_at("a", 30, at(3));
    let op = tracker.get_operation("a").unwrap();
    assert_eq!(op.bytes_processed, 30);
    assert_eq!(op.last_updated_at, Some(at(3)));
    assert_eq!(op.created_at, Some(at(1)));
}

#[test]
fn progress_for_unknown_id_changes_nothing() {
    let mut tracker = OperationTracker::new(10);
    tracker.store(pending("a", 1));
    tracker.update_progress_at("b", 80, at(2));
    tracker.update_progress("c", 80);
    assert_eq!(tracker.get_all_operations().len(), 1);
    let op = tracker.get_operation("a").unwrap();
    assert_eq!(op.bytes_processed, 0);
    assert_eq!(op.status, OperationStatus::Pending);
}

#[test]
fn complete_backfills_missing_file_size() {
    let mut tracker = OperationTracker::new(10);
    let id = tracker.create_operation(
        OperationType::Download,
        "s1".to_string(),
        "/a".to_string(),
        None,
        None,
    );
    tracker.update_progress(&id, 42);
    let appended = tracker.complete_operation(&id).unwrap();
    let op = tracker.get_operation(&id).unwrap();
    assert_eq!(op.file_size, Some(42));
    assert_eq!(op.status, OperationStatus::Completed);
    let created = op.created_at.unwrap();
    let completed = op.completed_at.unwrap();
    assert!(!completed.is_before(&created));
    assert_eq!(op.last_updated_at, op.completed_at);
    assert_eq!(appended.operation_id, id);
    assert_eq!(appended.status, OperationStatus::Completed);
    assert_eq!(appended.file_size, Some(42));
}

#[test]
fn complete_keeps_a_given_file_size() {
    let mut tracker = OperationTracker::new(10);
    let mut op = pending("a", 1);
    op.file_size = Some(100);
    tracker.store(op);
    tracker.update_progress_at("a", 60, at(2));
    let appended = tracker.complete_operation_at("a", at(3)).unwrap();
    assert_eq!(appended.file_size, Some(100));
    assert_eq!(appended.bytes_processed, 60);
    assert_eq!(appended.completed_at, Some(at(3)));
    assert_eq!(appended.last_updated_at, Some(at(3)));
    assert_eq!(appended.created_at, Some(at(1)));
}

#[test]
fn fail_records_the_message() {
    let mut tracker = OperationTracker::new(10);
    tracker.store(pending("a", 1));
    let appended = tracker.fail_operation_at("a", "disk full".to_string(), at(5)).unwrap();
    assert_eq!(appended.status, OperationStatus::Failed);
    assert_eq!(appended.error.as_deref(), Some("disk full"));
    assert_eq!(appended.completed_at, Some(at(5)));
    assert_eq!(appended.file_size, None);
    let op = tracker.get_operation("a").unwrap();
    assert_eq!(op.status, OperationStatus::Failed);
    assert_eq!(op.error.as_deref(), Some("disk full"));
}

#[test]
fn fail_now_records_the_message() {
    let mut tracker = OperationTracker::new(10);
    tracker.store(pending("a", 1));
    let appended = tracker.fail_operation("a", "no route".to_string()).unwrap();
    assert_eq!(appended.status, OperationStatus::Failed);
    assert_eq!(appended.error.as_deref(), Some("no route"));
    assert!(appended.completed_at.is_some());
}

#[test]
fn cancel_is_terminal_and_sets_no_error() {
    let mut tracker = OperationTracker::new(10);
    tracker.store(pending("a", 1));
    let appended = tracker.cancel_operation_at("a", at(9)).unwrap();
    assert_eq!(appended.status, OperationStatus::Canceled);
    assert_eq!(appended.error, None);
    assert_eq!(appended.completed_at, Some(at(9)));
    let now = tracker.cancel_operation("a").unwrap();
    assert_eq!(now.status, OperationStatus::Canceled);
}

#[test]
fn terminal_transitions_on_unknown_id_return_none() {
    let mut tracker = OperationTracker::new(10);
    tracker.store(pending("a", 1));
    assert!(tracker.complete_operation("x").is_none());
    assert!(tracker.fail_operation("x", "e".to_string()).is_none());
    assert!(tracker.cancel_operation("x").is_none());
    assert!(tracker.complete_operation_at("x", at(2)).is_none());
    assert_eq!(tracker.get_operation("a").unwrap().status, OperationStatus::Pending);
    assert_eq!(tracker.get_all_operations().len(), 1);
}

#[test]
fn transitions_after_a_terminal_state_still_apply() {
    let mut tracker = OperationTracker::new(10);
    tracker.store(pending("a", 1));
    tracker.complete_operation_at("a", at(2));
    tracker.update_progress_at("a", 7, at(3));
    let op = tracker.get_operation("a").unwrap();
    assert_eq!(op.status, OperationStatus::InProgress);
    assert_eq!(op.bytes_processed, 7);
    assert_eq!(op.completed_at, Some(at(2)));
    tracker.fail_operation_at("a", "late".to_string(), at(4));
    let op = tracker.get_operation("a").unwrap();
    assert_eq!(op.status, OperationStatus::Failed);
    assert_eq!(op.completed_at, Some(at(4)));
}

#[test]
fn get_unknown_id_is_not_found() {
    let tracker = OperationTracker::new(10);
    match tracker.get_operation("missing") {
        Err(TrackerError::NotFound(id)) => assert_eq!(id, "missing"),
        Ok(_) => panic!("an empty store holds no operation"),
    }
}

#[test]
fn not_found_message_names_the_id() {
    let err = TrackerError::NotFound("abc".to_string());
    assert_eq!(err.message(), "Operation not found: abc");
}

#[test]
fn store_replaces_a_record_with_the_same_id() {
    let mut tracker = OperationTracker::new(10);
    tracker.store(pending("a", 1));
    tracker.store(pending("b", 2));
    let mut again = pending("a", 3);
    again.bytes_processed = 9;
    tracker.store(again);
    let all = tracker.get_all_operations();
    assert_eq!(ids(&all), vec!["a".to_string(), "b".to_string()]);
    assert_eq!(all[0].bytes_processed, 9);
    assert_eq!(all[0].created_at, Some(at(3)));
}

#[test]
fn retention_keeps_the_most_recent_finished() {
    let mut tracker = OperationTracker::new(2);
    for (id, secs) in [("a", 10), ("b", 20), ("c", 30), ("d", 40)] {
        tracker.store(pending(id, 1));
        tracker.complete_operation_at(id, at(secs));
    }
    let completed = tracker.get_completed_operations();
    assert_eq!(ids(&completed), vec!["d".to_string(), "c".to_string()]);
    assert!(tracker.get_operation("a").is_err());
    assert!(tracker.get_operation("b").is_err());
    assert_eq!(tracker.get_all_operations().len(), 2);
}

#[test]
fn retention_evicts_by_time_not_by_arrival() {
    let mut tracker = OperationTracker::new(2);
    tracker.store(pending("a", 1));
    tracker.store(pending("b", 1));
    tracker.store(pending("c", 1));
    tracker.complete_operation_at("a", at(30));
    tracker.complete_operation_at("b", at(20));
    // `c` completes last but carries the oldest completion time.
    tracker.fail_operation_at("c", "e".to_string(), at(10));
    let all = tracker.get_all_operations();
    assert_eq!(ids(&all), vec!["a".to_string(), "b".to_string()]);
}

#[test]
fn retention_spares_canceled_and_active() {
    let mut tracker = OperationTracker::new(1);
    tracker.store(pending("active", 1));
    tracker.store(pending("x", 1));
    tracker.store(pending("y", 1));
    tracker.store(pending("z", 1));
    tracker.cancel_operation_at("x", at(5));
    tracker.cancel_operation_at("y", at(6));
    tracker.complete_operation_at("z", at(7));
    let all = tracker.get_all_operations();
    assert_eq!(
        ids(&all),
        vec!["active".to_string(), "x".to_string(), "y".to_string(), "z".to_string()]
    );
    assert_eq!(ids(&tracker.get_completed_operations()), vec!["z".to_string()]);
}

#[test]
fn retention_with_room_for_none_evicts_every_finished() {
    let mut tracker = OperationTracker::new(0);
    tracker.store(pending("a", 1));
    tracker.store(pending("b", 1));
    let appended = tracker.complete_operation_at("a", at(2)).unwrap();
    assert_eq!(appended.operation_id, "a");
    assert!(tracker.get_operation("a").is_err());
    assert!(tracker.get_operation("b").is_ok());
    assert!(tracker.get_completed_operations().is_empty());
}

#[test]
fn retention_on_equal_times_keeps_the_earlier_stored() {
    let mut tracker = OperationTracker::new(1);
    tracker.store(pending("a", 1));
    tracker.store(pending("b", 1));
    tracker.complete_operation_at("b", at(10));
    tracker.complete_operation_at("a", at(10));
    assert_eq!(ids(&tracker.get_all_operations()), vec!["a".to_string()]);
}

#[test]
fn cleanup_skips_finished_records_without_any_time() {
    let mut tracker = OperationTracker::new(1);
    let mut timeless = pending("t", 1);
    timeless.status = OperationStatus::Completed;
    timeless.created_at = None;
    timeless.last_updated_at = None;
    let mut dated_old = pending("old", 1);
    dated_old.status = OperationStatus::Failed;
    let mut dated_new = pending("new", 2);
    dated_new.status = OperationStatus::Completed;
    tracker.load_state(vec![timeless, dated_old, dated_new]);
    tracker.cleanup_old_operations();
    assert_eq!(ids(&tracker.get_all_operations()), vec!["t".to_string(), "new".to_string()]);
    // The listing ranks the record without a time last and cuts it off.
    assert_eq!(ids(&tracker.get_completed_operations()), vec!["new".to_string()]);
}

#[test]
fn completed_listing_is_newest_first_and_bounded() {
    let mut tracker = OperationTracker::new(3);
    let mut ops = Vec::new();
    for (id, secs) in [("a", 10), ("b", 40), ("c", 20), ("d", 30)] {
        let mut op = pending(id, 1);
        op.status = OperationStatus::Completed;
        op.completed_at = Some(at(secs));
        ops.push(op);
    }
    tracker.load_state(ops);
    let listed = tracker.get_completed_operations();
    assert_eq!(ids(&listed), vec!["b".to_string(), "d".to_string(), "c".to_string()]);
    assert_eq!(tracker.get_all_operations().len(), 4);
}

#[test]
fn completed_listing_falls_back_to_update_then_creation() {
    let mut tracker = OperationTracker::new(10);
    let mut by_completion = pending("completion", 1);
    by_completion.status = OperationStatus::Completed;
    by_completion.completed_at = Some(at(20));
    by_completion.last_updated_at = Some(at(99));
    let mut by_update = pending("update", 1);
    by_update.status = OperationStatus::Failed;
    by_update.last_updated_at = Some(at(30));
    let mut by_creation = pending("creation", 25);
    by_creation.status = OperationStatus::Failed;
    by_creation.last_updated_at = None;
    let mut canceled = pending("canceled", 50);
    canceled.status = OperationStatus::Canceled;
    canceled.completed_at = Some(at(50));
    tracker.load_state(vec![by_completion, by_update, by_creation, canceled]);
    let listed = tracker.get_completed_operations();
    assert_eq!(
        ids(&listed),
        vec!["update".to_string(), "creation".to_string(), "completion".to_string()]
    );
}

#[test]
fn nanoseconds_break_ties_between_seconds() {
    let mut tracker = OperationTracker::new(10);
    tracker.store(pending("a", 1));
    tracker.store(pending("b", 1));
    tracker.complete_operation_at("a", Timestamp { secs: 5, nanos: 100 });
    tracker.complete_operation_at("b", Timestamp { secs: 5, nanos: 200 });
    assert_eq!(ids(&tracker.get_completed_operations()), vec!["b".to_string(), "a".to_string()]);
}

#[test]
fn active_listing_holds_pending_and_in_progress() {
    let mut tracker = OperationTracker::new(10);
    tracker.store(pending("p", 1));
    tracker.store(pending("i", 1));
    tracker.store(pending("c", 1));
    tracker.store(pending("x", 1));
    tracker.update_progress_at("i", 1, at(2));
    tracker.complete_operation_at("c", at(3));
    tracker.cancel_operation_at("x", at(4));
    assert_eq!(ids(&tracker.get_active_operations()), vec!["p".to_string(), "i".to_string()]);
}

#[test]
fn listing_by_type_keeps_store_order() {
    let mut tracker = OperationTracker::new(10);
    let mut a = pending("a", 1);
    a.operation_type = OperationType::Delete;
    let b = pending("b", 2);
    let mut c = pending("c", 3);
    c.operation_type = OperationType::Delete;
    tracker.load_state(vec![a, b, c]);
    assert_eq!(
        ids(&tracker.get_operations_by_type(&OperationType::Delete)),
        vec!["a".to_string(), "c".to_string()]
    );
    assert_eq!(ids(&tracker.get_operations_by_type(&OperationType::Upload)), vec!["b".to_string()]);
    assert!(tracker.get_operations_by_type(&OperationType::Copy).is_empty());
}

#[test]
fn listing_by_user_is_newest_created_first() {
    let mut tracker = OperationTracker::new(10);
    tracker.load_state(vec![
        owned("a", Some("u1"), None, 10),
        owned("b", Some("u2"), None, 20),
        owned("c", Some("u1"), None, 30),
        owned("d", None, None, 40),
        owned("e", Some("u1"), None, 20),
    ]);
    assert_eq!(
        ids(&tracker.get_operations_by_user("u1")),
        vec!["c".to_string(), "e".to_string(), "a".to_string()]
    );
    assert!(tracker.get_operations_by_user("nobody").is_empty());
}

#[test]
fn listing_by_organization_is_newest_created_first() {
    let mut tracker = OperationTracker::new(10);
    tracker.load_state(vec![
        owned("a", None, Some("o1"), 10),
        owned("b", None, Some("o2"), 20),
        owned("c", None, Some("o1"), 30),
    ]);
    assert_eq!(
        ids(&tracker.get_operations_by_organization("o1")),
        vec!["c".to_string(), "a".to_string()]
    );
}

#[test]
fn load_state_replaces_and_later_duplicate_wins() {
    let mut tracker = OperationTracker::new(10);
    tracker.store(pending("gone", 1));
    let mut second = pending("a", 5);
    second.bytes_processed = 77;
    tracker.load_state(vec![pending("a", 1), pending("b", 2), second]);
    let all = tracker.get_all_operations();
    assert_eq!(ids(&all), vec!["a".to_string(), "b".to_string()]);
    assert_eq!(all[0].bytes_processed, 77);
    assert_eq!(tracker.max_history(), 10);
}

#[test]
fn clear_empties_the_store() {
    let mut tracker = OperationTracker::new(4);
    tracker.store(pending("a", 1));
    tracker.clear();
    assert!(tracker.get_all_operations().is_empty());
    assert_eq!(tracker.max_history(), 4);
}

#[test]
fn ids_are_compared_by_their_characters() {
    let mut tracker = OperationTracker::new(10);
    tracker.store(pending("é", 1));
    tracker.store(pending("e", 2));
    tracker.store(pending("", 3));
    assert_eq!(tracker.get_operation("é").unwrap().created_at, Some(at(1)));
    assert_eq!(tracker.get_operation("e").unwrap().created_at, Some(at(2)));
    assert_eq!(tracker.get_operation("").unwrap().created_at, Some(at(3)));
    assert!(tracker.get_operation("ee").is_err());
}
