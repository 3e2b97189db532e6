//! The records that the tracker keeps, and their mathematical views.

use vstd::prelude::*;
use crate::select::Record;
use crate::time::Timestamp;

verus! {

/// What an operation does to its operand.
#[derive(Clone, Copy, Debug, PartialEq, Eq, Structural)]
pub enum OperationType {
    Upload,
    Download,
    Delete,
    Move,
    Copy,
}

/// Where an operation stands in its lifecycle.
#[derive(Clone, Copy, Debug, PartialEq, Eq, Structural)]
pub enum OperationStatus {
    Pending,
    InProgress,
    Completed,
    Failed,
    Canceled,
}

impl OperationStatus {
    /// Still running or waiting to run.
    pub open spec fn active(self) -> bool {
        self is Pending || self is InProgress
    }

    /// Ended by completing or failing: the statuses that the history lists
    /// and that retention bounds. `Canceled` is terminal but not among them.
    pub open spec fn finished(self) -> bool {
        self is Completed || self is Failed
    }

    /// No further transition is expected.
    pub open spec fn terminal(self) -> bool {
        self is Completed || self is Failed || self is Canceled
    }

    /// Whether the status is pending or in progress.
    pub fn is_active(&self) -> (r: bool)
        ensures
            r == self.active(),
    {
        match self {
            OperationStatus::Pending | OperationStatus::InProgress => true,
            _ => false,
        }
    }

    /// Whether the status is completed or failed.
    pub fn is_finished(&self) -> (r: bool)
        ensures
            r == self.finished(),
    {
        match self {
            OperationStatus::Completed | OperationStatus::Failed => true,
            _ => false,
        }
    }
}

/// One tracked operation.
#[derive(Debug)]
pub struct Operation {
    pub operation_id: String,
    pub operation_type: OperationType,
    pub source_id: String,
    pub source_path: String,
    pub destination_path: Option<String>,
    pub file_size: Option<u64>,
    pub bytes_processed: u64,
    pub status: OperationStatus,
    pub error: Option<String>,
    pub user_id: Option<String>,
    pub organization_id: Option<String>,
    pub created_at: Option<Timestamp>,
    pub completed_at: Option<Timestamp>,
    pub last_updated_at: Option<Timestamp>,
}

/// An operation as a mathematical value: every text field is the sequence
/// of its characters.
pub struct OperationView {
    pub operation_id: Seq<char>,
    pub operation_type: OperationType,
    pub source_id: Seq<char>,
    pub source_path: Seq<char>,
    pub destination_path: Option<Seq<char>>,
    pub file_size: Option<u64>,
    pub bytes_processed: u64,
    pub status: OperationStatus,
    pub error: Option<Seq<char>>,
    pub user_id: Option<Seq<char>>,
    pub organization_id: Option<Seq<char>>,
    pub created_at: Option<Timestamp>,
    pub completed_at: Option<Timestamp>,
    pub last_updated_at: Option<Timestamp>,
}

/// The characters of an optional text.
pub open spec fn text_of(s: Option<String>) -> Option<Seq<char>> {
    match s {
        Some(t) => Some(t@),
        None => None,
    }
}

/// The first of two optional instants that is present.
pub open spec fn first_present(a: Option<Timestamp>, b: Option<Timestamp>) -> Option<Timestamp> {
    if a is Some { a } else { b }
}

impl View for Operation {
    type V = OperationView;

    open spec fn view(&self) -> OperationView {
        OperationView {
            operation_id: self.operation_id@,
            operation_type: self.operation_type,
            source_id: self.source_id@,
            source_path: self.source_path@,
            destination_path: text_of(self.destination_path),
            file_size: self.file_size,
            bytes_processed: self.bytes_processed,
            status: self.status,
            error: text_of(self.error),
            user_id: text_of(self.user_id),
            organization_id: text_of(self.organization_id),
            created_at: self.created_at,
            completed_at: self.completed_at,
            last_updated_at: self.last_updated_at,
        }
    }
}

impl OperationView {
    /// The record after a progress report of `bytes` at `now`.
    pub open spec fn progressed(self, bytes: u64, now: Timestamp) -> OperationView {
        OperationView {
            bytes_processed: bytes,
            status: OperationStatus::InProgress,
            last_updated_at: Some(now),
            ..self
        }
    }

    /// The record after completing at `now`. A size that was never given
    /// becomes the number of bytes processed.
    pub open spec fn completed(self, now: Timestamp) -> OperationView {
        OperationView {
            status: OperationStatus::Completed,
            completed_at: Some(now),
            last_updated_at: Some(now),
            file_size: if self.file_size is Some {
                self.file_size
            } else {
                Some(self.bytes_processed)
            },
            ..self
        }
    }

    /// The record after failing at `now` with the message `error`.
    pub open spec fn failed(self, error: Seq<char>, now: Timestamp) -> OperationView {
        OperationView {
            status: OperationStatus::Failed,
            error: Some(error),
            completed_at: Some(now),
            last_updated_at: Some(now),
            ..self
        }
    }

    /// The record after being canceled at `now`.
    pub open spec fn canceled(self, now: Timestamp) -> OperationView {
        OperationView {
            status: OperationStatus::Canceled,
            completed_at: Some(now),
            last_updated_at: Some(now),
            ..self
        }
    }

    /// The completion time is set exactly when the status is terminal.
    pub open spec fn marked(self) -> bool {
        self.completed_at is Some <==> self.status.terminal()
    }

    /// The instant by which finished operations are ranked: completion,
    /// else the last update, else creation.
    pub open spec fn recency(self) -> Option<Timestamp> {
        first_present(self.completed_at, first_present(self.last_updated_at, self.created_at))
    }

    /// The instant by which history listings are ranked: creation, else the
    /// last update.
    pub open spec fn history_time(self) -> Option<Timestamp> {
        first_present(self.created_at, self.last_updated_at)
    }
}

/// A copy of an optional text.
pub fn clone_text(s: &Option<String>) -> (r: Option<String>)
    ensures
        r == *s,
{
    match s {
        Some(t) => Some(t.clone()),
        None => None,
    }
}

impl Record for Operation {
    fn duplicate(&self) -> (copy: Self) {
        self.clone()
    }
}

impl Clone for Operation {
    fn clone(&self) -> (res: Self)
        ensures
            res == *self,
    {
        Operation {
            operation_id: self.operation_id.clone(),
            operation_type: self.operation_type,
            source_id: self.source_id.clone(),
            source_path: self.source_path.clone(),
            destination_path: clone_text(&self.destination_path),
            file_size: self.file_size,
            bytes_processed: self.bytes_processed,
            status: self.status,
            error: clone_text(&self.error),
            user_id: clone_text(&self.user_id),
            organization_id: clone_text(&self.organization_id),
            created_at: self.created_at,
            completed_at: self.completed_at,
            last_updated_at: self.last_updated_at,
        }
    }
}

/// A newly created record: pending, nothing processed, created and last
/// updated at `now`.
pub open spec fn pending_record(
    operation_id: Seq<char>,
    operation_type: OperationType,
    source_id: Seq<char>,
    source_path: Seq<char>,
    destination_path: Option<Seq<char>>,
    file_size: Option<u64>,
    user_id: Option<Seq<char>>,
    organization_id: Option<Seq<char>>,
    now: Timestamp,
) -> OperationView {
    OperationView {
        operation_id,
        operation_type,
        source_id,
        source_path,
        destination_path,
        file_size,
        bytes_processed: 0,
        status: OperationStatus::Pending,
        error: None,
        user_id,
        organization_id,
        created_at: Some(now),
        completed_at: None,
        last_updated_at: Some(now),
    }
}

/// What the lifecycle does to the completion mark. A new record carries
/// none; every terminal transition sets it together with a terminal status;
/// a progress report keeps the mark right on an active record. A progress
/// report on a record that has already ended is accepted too, and leaves a
/// completion time on a record that is in progress again.
pub proof fn lemma_lifecycle_marks(
    op: OperationView,
    bytes: u64,
    error: Seq<char>,
    now: Timestamp,
)
    ensures
        op.completed(now).marked() && op.completed(now).status is Completed,
        op.failed(error, now).marked() && op.failed(error, now).status is Failed,
        op.canceled(now).marked() && op.canceled(now).status is Canceled,
        op.marked() && op.status.active() ==> op.progressed(bytes, now).marked(),
        op.status.terminal() && op.marked() ==> !op.progressed(bytes, now).marked(),
        op.file_size is None ==> op.completed(now).file_size == Some(op.bytes_processed),
        op.file_size is Some ==> op.completed(now).file_size == op.file_size,
{
}

/// A record that ends no earlier than it was created is completed no
/// earlier than it was created, and was last updated when it completed.
pub proof fn lemma_completion_follows_creation(op: OperationView, now: Timestamp)
    requires
        op.created_at matches Some(created) && !now.before(created),
    ensures
        !op.completed(now).completed_at->0.before(op.completed(now).created_at->0),
        op.completed(now).last_updated_at == op.completed(now).completed_at,
{
}

impl Operation {
    /// A newly created record: pending, nothing processed, created and last
    /// updated at `now`.
    pub fn pending(
        operation_id: String,
        operation_type: OperationType,
        source_id: String,
        source_path: String,
        destination_path: Option<String>,
        file_size: Option<u64>,
        user_id: Option<String>,
        organization_id: Option<String>,
        now: Timestamp,
    ) -> (op: Operation)
        ensures
            op@ == pending_record(
                operation_id@,
                operation_type,
                source_id@,
                source_path@,
                text_of(destination_path),
                file_size,
                text_of(user_id),
                text_of(organization_id),
                now,
            ),
    {
        Operation {
            operation_id,
            operation_type,
            source_id,
            source_path,
            destination_path,
            file_size,
            bytes_processed: 0,
            status: OperationStatus::Pending,
            error: None,
            user_id,
            organization_id,
            created_at: Some(now),
            completed_at: None,
            last_updated_at: Some(now),
        }
    }

    /// Records a progress report: `bytes` replaces the count, whatever it
    /// was, and the operation is in progress.
    pub fn mark_progress(&mut self, bytes: u64, now: Timestamp)
        ensures
            final(self)@ == old(self)@.progressed(bytes, now),
    {
        self.bytes_processed = bytes;
        self.status = OperationStatus::InProgress;
        self.last_updated_at = Some(now);
    }

    /// Marks the operation completed at `now`.
    pub fn mark_completed(&mut self, now: Timestamp)
        ensures
            final(self)@ == old(self)@.completed(now),
    {
        self.status = OperationStatus::Completed;
        self.completed_at = Some(now);
        self.last_updated_at = Some(now);
        if self.file_size.is_none() {
            self.file_size = Some(self.bytes_processed);
        }
    }

    /// Marks the operation failed at `now` with the message `error`.
    pub fn mark_failed(&mut self, error: String, now: Timestamp)
        ensures
            final(self)@ == old(self)@.failed(error@, now),
    {
        self.status = OperationStatus::Failed;
        self.error = Some(error);
        self.completed_at = Some(now);
        self.last_updated_at = Some(now);
    }

    /// Marks the operation canceled at `now`.
    pub fn mark_canceled(&mut self, now: Timestamp)
        ensures
            final(self)@ == old(self)@.canceled(now),
    {
        self.status = OperationStatus::Canceled;
        self.completed_at = Some(now);
        self.last_updated_at = Some(now);
    }

    /// The instant by which finished operations are ranked.
    pub fn recency(&self) -> (r: Option<Timestamp>)
        ensures
            r == self@.recency(),
    {
        if self.completed_at.is_some() {
            self.completed_at
        } else if self.last_updated_at.is_some() {
            self.last_updated_at
        } else {
            self.created_at
        }
    }

    /// The instant by which history listings are ranked.
    pub fn history_time(&self) -> (r: Option<Timestamp>)
        ensures
            r == self@.history_time(),
    {
        if self.created_at.is_some() {
            self.created_at
        } else {
            self.last_updated_at
        }
    }
}

} // verus!
