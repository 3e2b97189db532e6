use operation_tracker::model::{Operation, OperationStatus, OperationType};
use operation_tracker::order::{is_newer, newest_first};
use operation_tracker::query::{Filter, Ranking};
use operation_tracker::time::Timestamp;

fn moment(secs: i64, nanos: u32) -> Option<Timestamp> {
    Some(Timestamp { secs, nanos })
}

fn sample(status: OperationStatus) -> Operation {
    let mut op = Operation::pending(
        "id".to_string(),
        OperationType::Copy,
        "src".to_string(),
        "/p".to_string(),
        None,
        None,
        Some("u1".to_string()),
        Some("o1".to_string()),
        Timestamp { secs: 10, nanos: 0 },
    );
    op.status = status;
    op
}

#[test]
fn timestamps_order_by_seconds_then_nanoseconds() {
    let a = Timestamp { secs: 1, nanos: 999_999_999 };
    let b = Timestamp { secs: 2, nanos: 0 };
    let c = Timestamp { secs: 2, nanos: 1 };
    let early = Timestamp { secs: -5, nanos: 7 };
    assert!(a.is_before(&b));
    assert!(b.is_before(&c));
    assert!(!c.is_before(&b));
    assert!(!b.is_before(&b));
    assert!(early.is_before(&a));
    assert!(!a.is_before(&early));
}

#[test]
fn absent_instants_are_older_than_present_ones() {
    assert!(is_newer(&moment(0, 0), &None));
    assert!(is_newer(&moment(i64::MIN, 0), &None));
    assert!(!is_newer(&None, &moment(0, 0)));
    assert!(!is_newer(&None, &None));
    assert!(is_newer(&moment(5, 0), &moment(4, 999)));
    assert!(!is_newer(&moment(5, 0), &moment(5, 0)));
}

#[test]
fn ranking_is_newest_first_and_stable() {
    let keys = vec![moment(10, 0), None, moment(30, 0), moment(10, 0), None, moment(20, 5)];
    assert_eq!(newest_first(&keys), vec![2, 5, 0, 3, 1, 4]);
}

#[test]
fn ranking_of_few_keys() {
    assert_eq!(newest_first(&Vec::new()), Vec::<usize>::new());
    assert_eq!(newest_first(&vec![None]), vec![0]);
    assert_eq!(newest_first(&vec![moment(1, 0), moment(2, 0)]), vec![1, 0]);
    assert_eq!(newest_first(&vec![moment(2, 0), moment(1, 0)]), vec![0, 1]);
    assert_eq!(newest_first(&vec![moment(1, 0), moment(1, 0), moment(1, 0)]), vec![0, 1, 2]);
}

#[test]
fn ranking_names_every_index_once() {
    let mut keys = Vec::new();
    for n in 0..257u32 {
        let secs = ((n * 7919) % 31) as i64;
        keys.push(if n % 11 == 0 { None } else { moment(secs, n % 3) });
    }
    let order = newest_first(&keys);
    let mut seen = vec![false; keys.len()];
    for &i in &order {
        assert!(!seen[i]);
        seen[i] = true;
    }
    assert!(seen.iter().all(|s| *s));
    for pair in order.windows(2) {
        let (first, second) = (pair[0], pair[1]);
        assert!(!is_newer(&keys[second], &keys[first]));
        if keys[first] == keys[second] {
            assert!(first < second);
        }
    }
}

#[test]
fn recency_prefers_completion_then_update_then_creation() {
    let mut op = sample(OperationStatus::Completed);
    op.created_at = moment(1, 0);
    op.last_updated_at = moment(2, 0);
    op.completed_at = moment(3, 0);
    assert_eq!(op.recency(), moment(3, 0));
    assert_eq!(op.history_time(), moment(1, 0));
    op.completed_at = None;
    assert_eq!(op.recency(), moment(2, 0));
    op.last_updated_at = None;
    assert_eq!(op.recency(), moment(1, 0));
    op.created_at = None;
    assert_eq!(op.recency(), None);
    assert_eq!(op.history_time(), None);
    op.last_updated_at = moment(9, 0);
    assert_eq!(op.history_time(), moment(9, 0));
    assert_eq!(Ranking::Recency.time_of(&op), moment(9, 0));
    assert_eq!(Ranking::HistoryTime.time_of(&op), moment(9, 0));
}

#[test]
fn statuses_are_active_finished_or_neither() {
    assert!(OperationStatus::Pending.is_active());
    assert!(OperationStatus::InProgress.is_active());
    assert!(!OperationStatus::Completed.is_active());
    assert!(!OperationStatus::Canceled.is_active());
    assert!(OperationStatus::Completed.is_finished());
    assert!(OperationStatus::Failed.is_finished());
    assert!(!OperationStatus::Canceled.is_finished());
    assert!(!OperationStatus::Pending.is_finished());
}

#[test]
fn filters_test_one_operation() {
    let done = sample(OperationStatus::Completed);
    let running = sample(OperationStatus::InProgress);
    assert!(Filter::Everything.test(&done));
    assert!(Filter::OfType(OperationType::Copy).test(&done));
    assert!(!Filter::OfType(OperationType::Move).test(&done));
    assert!(Filter::Active.test(&running));
    assert!(!Filter::Active.test(&done));
    assert!(Filter::Finished.test(&done));
    assert!(!Filter::Finished.test(&running));
    assert!(Filter::OfUser("u1").test(&done));
    assert!(!Filter::OfUser("u").test(&done));
    assert!(Filter::OfOrganization("o1").test(&done));
    assert!(!Filter::OfOrganization("o2").test(&done));
    assert!(Filter::Evictable.test(&done));
    assert!(!Filter::Evictable.test(&running));
    let mut timeless = sample(OperationStatus::Failed);
    timeless.created_at = None;
    timeless.last_updated_at = None;
    assert!(!Filter::Evictable.test(&timeless));
    assert_eq!(Filter::Active.mark(&vec![done, running]), vec![false, true]);
}
