use operation_tracker::audit::{AuditLog, AuditLogEntry};
use operation_tracker::model::{Operation, OperationStatus, OperationType};
use operation_tracker::time::Timestamp;

fn instant(secs: i64) -> Timestamp {
    Timestamp { secs, nanos: 0 }
}

fn operation(id: &str, user: Option<&str>, org: Option<&str>, secs: i64) -> Operation {
    Operation::pending(
        id.to_string(),
        OperationType::Upload,
        "src".to_string(),
        "/from".to_string(),
        Some("/to".to_string()),
        Some(12),
        user.map(|u| u.to_string()),
        org.map(|o| o.to_string()),
        instant(secs),
    )
}

fn entry_ids(entries: &[AuditLogEntry]) -> Vec<String> {
    entries.iter().map(|e| e.operation_id.clone()).collect()
}

#[test]
fn entry_projects_every_kept_field() {
    let mut op = operation("a", Some("u1"), Some("o1"), 5);
    op.bytes_processed = 7;
    op.status = OperationStatus::Failed;
    op.error = Some("boom".to_string());
    op.completed_at = Some(instant(9));
    op.last_updated_at = Some(instant(8));
    let entry = AuditLogEntry::from(op);
    assert_eq!(entry.operation_id, "a");
    assert_eq!(entry.operation_type, OperationType::Upload);
    assert_eq!(entry.source_id, "src");
    assert_eq!(entry.source_path, "/from");
    assert_eq!(entry.destination_path.as_deref(), Some("/to"));
    assert_eq!(entry.file_size, Some(12));
    assert_eq!(entry.status, OperationStatus::Failed);
    assert_eq!(entry.error.as_deref(), Some("boom"));
    assert_eq!(entry.user_id.as_deref(), Some("u1"));
    assert_eq!(entry.organization_id.as_deref(), Some("o1"));
    assert_eq!(entry.created_at, Some(instant(5)));
    assert_eq!(entry.completed_at, Some(instant(9)));
}

#[test]
fn entries_by_user_are_the_inserted_records() {
    let mut log = AuditLog::new(0);
    let mut mine = operation("a", Some("u1"), Some("o1"), 5);
    mine.status = OperationStatus::Completed;
    mine.completed_at = Some(instant(6));
    log.log_operation(mine);
    log.log_operation(operation("b", Some("u2"), None, 6));
    log.log_operation(operation("c", None, None, 7));
    log.log_operation(operation("d", Some("u1"), None, 8));
    let found = log.get_entries_by_user("u1");
    assert_eq!(entry_ids(&found), vec!["a".to_string(), "d".to_string()]);
    for entry in &found {
        assert_eq!(entry.user_id.as_deref(), Some("u1"));
    }
    let first = &found[0];
    assert_eq!(first.operation_type, OperationType::Upload);
    assert_eq!(first.source_id, "src");
    assert_eq!(first.source_path, "/from");
    assert_eq!(first.destination_path.as_deref(), Some("/to"));
    assert_eq!(first.file_size, Some(12));
    assert_eq!(first.status, OperationStatus::Completed);
    assert_eq!(first.error, None);
    assert_eq!(first.organization_id.as_deref(), Some("o1"));
    assert_eq!(first.created_at, Some(instant(5)));
    assert_eq!(first.completed_at, Some(instant(6)));
    assert!(log.get_entries_by_user("u3").is_empty());
}

#[test]
fn entries_by_organization_type_and_status() {
    let mut log = AuditLog::new(0);
    let mut a = operation("a", None, Some("o1"), 1);
    a.operation_type = OperationType::Delete;
    let mut b = operation("b", None, Some("o2"), 2);
    b.status = OperationStatus::Canceled;
    let mut c = operation("c", None, Some("o1"), 3);
    c.status = OperationStatus::Canceled;
    log.log_operation(a);
    log.log_operation(b);
    log.log_operation(c);
    assert_eq!(
        entry_ids(&log.get_entries_by_organization("o1")),
        vec!["a".to_string(), "c".to_string()]
    );
    assert_eq!(entry_ids(&log.get_entries_by_type(&OperationType::Delete)), vec!["a".to_string()]);
    assert_eq!(
        entry_ids(&log.get_entries_by_type(&OperationType::Upload)),
        vec!["b".to_string(), "c".to_string()]
    );
    assert_eq!(
        entry_ids(&log.get_entries_by_status(&OperationStatus::Canceled)),
        vec!["b".to_string(), "c".to_string()]
    );
    assert_eq!(entry_ids(&log.get_entries_by_status(&OperationStatus::Pending)), vec!["a".to_string()]);
    assert_eq!(log.get_all_entries().len(), 3);
}

#[test]
fn log_without_maximum_persists_everything_in_order() {
    let mut log = AuditLog::new(0);
    log.log_operation(operation("a", None, None, 30));
    log.log_operation(operation("b", None, None, 10));
    let saved = log.log_operation(operation("c", None, None, 20));
    assert_eq!(entry_ids(&saved), vec!["a".to_string(), "b".to_string(), "c".to_string()]);
    assert_eq!(log.max_entries(), 0);
}

#[test]
fn log_within_its_maximum_persists_in_logged_order() {
    let mut log = AuditLog::new(3);
    log.log_operation(operation("a", None, None, 30));
    log.log_operation(operation("b", None, None, 10));
    let saved = log.log_operation(operation("c", None, None, 20));
    assert_eq!(entry_ids(&saved), vec!["a".to_string(), "b".to_string(), "c".to_string()]);
}

#[test]
fn log_over_its_maximum_persists_the_newest() {
    let mut log = AuditLog::new(2);
    log.log_operation(operation("a", None, None, 30));
    log.log_operation(operation("b", None, None, 10));
    let saved = log.log_operation(operation("c", None, None, 20));
    assert_eq!(entry_ids(&saved), vec!["a".to_string(), "c".to_string()]);
    // The log itself still holds all three.
    assert_eq!(
        entry_ids(&log.get_all_entries()),
        vec!["a".to_string(), "b".to_string(), "c".to_string()]
    );
    assert_eq!(entry_ids(&log.entries_to_save()), vec!["a".to_string(), "c".to_string()]);
}

#[test]
fn bounded_log_ranks_by_creation_then_completion() {
    let mut log = AuditLog::new(2);
    let mut no_creation = operation("completed-only", None, None, 0);
    no_creation.created_at = None;
    no_creation.completed_at = Some(instant(50));
    let mut timeless = operation("timeless", None, None, 0);
    timeless.created_at = None;
    log.log_operation(timeless);
    log.log_operation(no_creation);
    let saved = log.log_operation(operation("created", None, None, 40));
    assert_eq!(entry_ids(&saved), vec!["completed-only".to_string(), "created".to_string()]);
}

#[test]
fn load_prefers_the_snapshot() {
    let mut log = AuditLog::new(0);
    let snapshot = vec![AuditLogEntry::from(operation("s", None, None, 1))];
    let legacy = vec![Some(operation("l", None, None, 2))];
    log.load(Some(snapshot), Some(legacy));
    assert_eq!(entry_ids(&log.get_all_entries()), vec!["s".to_string()]);
}

#[test]
fn load_imports_the_legacy_trail_in_line_order() {
    let mut log = AuditLog::new(0);
    let legacy = vec![
        Some(operation("b", None, None, 20)),
        None,
        Some(operation("a", None, None, 10)),
    ];
    log.load(None, Some(legacy));
    assert_eq!(entry_ids(&log.get_all_entries()), vec!["b".to_string(), "a".to_string()]);
}

#[test]
fn load_with_nothing_on_disk_leaves_the_log_empty() {
    let mut log = AuditLog::new(5);
    log.load(None, None);
    assert!(log.get_all_entries().is_empty());
    assert_eq!(log.max_entries(), 5);
}

#[test]
fn load_of_an_empty_snapshot_wins_over_the_legacy_trail() {
    let mut log = AuditLog::new(0);
    log.load(Some(Vec::new()), Some(vec![Some(operation("l", None, None, 2))]));
    assert!(log.get_all_entries().is_empty());
}

#[test]
fn clear_empties_the_log_and_persists_nothing() {
    let mut log = AuditLog::new(0);
    log.log_operation(operation("a", None, None, 1));
    let saved = log.clear();
    assert!(saved.is_empty());
    assert!(log.get_all_entries().is_empty());
    assert!(log.entries_to_save().is_empty());
}
