//! The store of tracked operations.
//!
//! The store holds one record per operation id, in the order in which the
//! ids were first stored. Every change is made in memory; what has to reach
//! the snapshot and the audit trail is handed back to the caller.

use vstd::prelude::*;
use vstd::string::*;
use crate::ident::fresh_operation_id;
use crate::model::{pending_record, text_of, Operation, OperationType, OperationView};
use crate::order::newest_first;
use crate::query::{
    active, by_history_time, by_recency, everything, evictable, finished, of_organization,
    of_type, of_user, Filter, Ranking,
};
use crate::retention::{
    eviction_ranking, evicts, lemma_filter_keeps_distinct, retained, survives,
};
use crate::select::{
    copy_newest, copy_where, keep_where, lemma_filter_all, newest, select, views,
};
use crate::text::same_text;
use crate::time::{current_time, Timestamp};

verus! {

/// No two records share an operation id.
pub open spec fn distinct_ids(s: Seq<OperationView>) -> bool {
    forall|i: int, j: int|
        0 <= i < j < s.len() ==> (#[trigger] s[i]).operation_id != (#[trigger] s[j]).operation_id
}

/// Some record of `s` has the id `id`.
pub open spec fn holds(s: Seq<OperationView>, id: Seq<char>) -> bool {
    exists|i: int| 0 <= i < s.len() && (#[trigger] s[i]).operation_id == id
}

/// Where the record with the id `id` stands in `s`, if `s` holds one.
pub open spec fn position(s: Seq<OperationView>, id: Seq<char>) -> int {
    choose|i: int| 0 <= i < s.len() && (#[trigger] s[i]).operation_id == id
}

/// The record with the id `id`, if `s` holds one.
pub open spec fn lookup(s: Seq<OperationView>, id: Seq<char>) -> Option<OperationView> {
    if holds(s, id) {
        Some(s[position(s, id)])
    } else {
        None
    }
}

/// `s` with `op` stored under its id: in place of the record that had the
/// id, or at the end if none had it.
pub open spec fn stored(s: Seq<OperationView>, op: OperationView) -> Seq<OperationView> {
    if holds(s, op.operation_id) {
        s.update(position(s, op.operation_id), op)
    } else {
        s.push(op)
    }
}

/// `s` after a progress report for `id`; unchanged if `id` is unknown.
pub open spec fn with_progress(
    s: Seq<OperationView>,
    id: Seq<char>,
    bytes: u64,
    now: Timestamp,
) -> Seq<OperationView> {
    if holds(s, id) {
        s.update(position(s, id), s[position(s, id)].progressed(bytes, now))
    } else {
        s
    }
}

/// The view of a record that may be absent.
pub open spec fn record_view(record: Option<Operation>) -> Option<OperationView> {
    match record {
        Some(op) => Some(op@),
        None => None,
    }
}

/// `s` after the operation `id` completed at `now` and retention ran;
/// unchanged if `id` is unknown.
pub open spec fn after_completion(
    s: Seq<OperationView>,
    id: Seq<char>,
    now: Timestamp,
    keep: int,
) -> Seq<OperationView> {
    if holds(s, id) {
        retained(s.update(position(s, id), s[position(s, id)].completed(now)), keep)
    } else {
        s
    }
}

/// `s` after the operation `id` failed at `now` and retention ran;
/// unchanged if `id` is unknown.
pub open spec fn after_failure(
    s: Seq<OperationView>,
    id: Seq<char>,
    error: Seq<char>,
    now: Timestamp,
    keep: int,
) -> Seq<OperationView> {
    if holds(s, id) {
        retained(s.update(position(s, id), s[position(s, id)].failed(error, now)), keep)
    } else {
        s
    }
}

/// `s` after the operation `id` was canceled at `now` and retention ran;
/// unchanged if `id` is unknown.
pub open spec fn after_cancellation(
    s: Seq<OperationView>,
    id: Seq<char>,
    now: Timestamp,
    keep: int,
) -> Seq<OperationView> {
    if holds(s, id) {
        retained(s.update(position(s, id), s[position(s, id)].canceled(now)), keep)
    } else {
        s
    }
}

/// The record of `id` after it completed at `now`, if `s` holds one.
pub open spec fn completed_record(s: Seq<OperationView>, id: Seq<char>, now: Timestamp) -> Option<
    OperationView,
> {
    match lookup(s, id) {
        Some(op) => Some(op.completed(now)),
        None => None,
    }
}

/// The record of `id` after it failed at `now`, if `s` holds one.
pub open spec fn failed_record(
    s: Seq<OperationView>,
    id: Seq<char>,
    error: Seq<char>,
    now: Timestamp,
) -> Option<OperationView> {
    match lookup(s, id) {
        Some(op) => Some(op.failed(error, now)),
        None => None,
    }
}

/// The record of `id` after it was canceled at `now`, if `s` holds one.
pub open spec fn canceled_record(s: Seq<OperationView>, id: Seq<char>, now: Timestamp) -> Option<
    OperationView,
> {
    match lookup(s, id) {
        Some(op) => Some(op.canceled(now)),
        None => None,
    }
}

/// A record that was stored is found under its id, as it was stored; ids
/// stay distinct, and no other id is gained or lost.
pub proof fn lemma_stored_lookup(s: Seq<OperationView>, op: OperationView, other: Seq<char>)
    requires
        distinct_ids(s),
    ensures
        distinct_ids(stored(s, op)),
        lookup(stored(s, op), op.operation_id) == Some(op),
        other != op.operation_id ==> lookup(stored(s, op), other) == lookup(s, other),
{
    let after = stored(s, op);
    let id = op.operation_id;
    let at = if holds(s, id) {
        position(s, id)
    } else {
        s.len() as int
    };
    assert(after[at] == op);
    assert(after.len() == if holds(s, id) {
        s.len()
    } else {
        s.len() + 1
    });
    assert forall|i: int| 0 <= i < after.len() && i != at implies (#[trigger] after[i])
        == s[i] && s[i].operation_id != id by {
        if holds(s, id) {
            if i < at {
                assert(s[i].operation_id != s[at].operation_id);
            } else {
                assert(s[at].operation_id != s[i].operation_id);
            }
        }
    }
    assert(distinct_ids(after)) by {
        assert forall|i: int, j: int| 0 <= i < j < after.len() implies (#[trigger] after[i]).operation_id
            != (#[trigger] after[j]).operation_id by {
            if i != at && j != at {
                assert(s[i].operation_id != s[j].operation_id);
            }
        }
    }
    assert(holds(after, id));
    lemma_position_unique(after, at);
    if other != id {
        if holds(s, other) {
            let k = position(s, other);
            assert(after[k] == s[k]);
            assert(holds(after, other));
            lemma_position_unique(after, k);
        } else if holds(after, other) {
            let k = position(after, other);
            assert(s[k].operation_id == other);
        }
    }
}

/// Among distinct ids, a record stands where its id is looked up.
pub proof fn lemma_position_unique(s: Seq<OperationView>, i: int)
    requires
        distinct_ids(s),
        0 <= i < s.len(),
    ensures
        holds(s, s[i].operation_id),
        position(s, s[i].operation_id) == i,
        lookup(s, s[i].operation_id) == Some(s[i]),
{
    assert(holds(s, s[i].operation_id));
    let k = position(s, s[i].operation_id);
    if k < i {
        assert(s[k].operation_id != s[i].operation_id);
    } else if i < k {
        assert(s[i].operation_id != s[k].operation_id);
    }
}

/// After a progress report the record shows the reported count and is in
/// progress, whatever it showed before; no other record changes.
pub proof fn lemma_progress_lookup(
    s: Seq<OperationView>,
    id: Seq<char>,
    bytes: u64,
    now: Timestamp,
    other: Seq<char>,
)
    requires
        distinct_ids(s),
        holds(s, id),
    ensures
        distinct_ids(with_progress(s, id, bytes, now)),
        lookup(with_progress(s, id, bytes, now), id) == Some(
            lookup(s, id)->0.progressed(bytes, now),
        ),
        other != id ==> lookup(with_progress(s, id, bytes, now), other) == lookup(s, other),
{
    let at = position(s, id);
    let after = with_progress(s, id, bytes, now);
    assert(after == stored(s, s[at].progressed(bytes, now)));
    lemma_stored_lookup(s, s[at].progressed(bytes, now), other);
}

/// Position `q` between `from` and `upto` of the ranking names the record
/// at `i`.
spec fn dropped(picked: Seq<usize>, order: Seq<usize>, from: int, upto: int, i: int) -> bool {
    exists|q: int| from <= q < upto && picked[#[trigger] order[q] as int] == i
}

/// Why the tracker could not answer.
#[derive(Debug)]
pub enum TrackerError {
    /// No operation has the id that was asked for.
    NotFound(String),
}

impl TrackerError {
    /// The error as a sentence for a log or a user.
    pub fn message(&self) -> (text: String)
        ensures
            match self {
                TrackerError::NotFound(id) => text@ == "Operation not found: "@ + id@,
            },
    {
        match self {
            TrackerError::NotFound(id) => String::from_str("Operation not found: ").concat(
                id.as_str(),
            ),
        }
    }
}

/// The tracked operations and the number of finished ones to keep.
pub struct OperationTracker {
    operations: Vec<Operation>,
    max_history: usize,
}

impl View for OperationTracker {
    type V = Seq<OperationView>;

    closed spec fn view(&self) -> Seq<OperationView> {
        views(self.operations@)
    }
}

impl OperationTracker {
    /// The number of finished operations that the store keeps.
    pub closed spec fn history_limit(&self) -> nat {
        self.max_history as nat
    }

    /// The store holds at most one record per id.
    pub open spec fn wf(&self) -> bool {
        distinct_ids(self@)
    }

    /// An empty store that will keep `max_history` finished operations.
    pub fn new(max_history: usize) -> (tracker: Self)
        ensures
            tracker.wf(),
            tracker@ == Seq::<OperationView>::empty(),
            tracker.history_limit() == max_history,
    {
        let tracker = OperationTracker { operations: Vec::new(), max_history };
        assert(tracker@ =~= Seq::<OperationView>::empty());
        tracker
    }

    /// Empties the store.
    pub fn clear(&mut self)
        ensures
            final(self).wf(),
            final(self)@ == Seq::<OperationView>::empty(),
            final(self).history_limit() == old(self).history_limit(),
    {
        self.operations.clear();
        assert(self@ =~= Seq::<OperationView>::empty());
    }

    /// The number of finished operations that the store keeps.
    pub fn max_history(&self) -> (n: usize)
        ensures
            n == self.history_limit(),
    {
        self.max_history
    }

    /// Where the record with the id `id` stands.
    fn find(&self, id: &str) -> (found: Option<usize>)
        requires
            self.wf(),
        ensures
            match found {
                Some(i) => i < self@.len() && holds(self@, id@) && position(self@, id@) == i,
                None => !holds(self@, id@),
            },
    {
        let mut i: usize = 0;
        while i < self.operations.len()
            invariant
                i <= self.operations.len(),
                self@ == views(self.operations@),
                self.wf(),
                forall|k: int| 0 <= k < i ==> (#[trigger] self@[k]).operation_id != id@,
            decreases self.operations.len() - i,
        {
            if same_text(self.operations[i].operation_id.as_str(), id) {
                assert(self@[i as int].operation_id == id@);
                return Some(i);
            }
            i += 1;
        }
        None
    }

    /// Stores `operation` under its id: in place of the record that had the
    /// id, or after all others if none had it.
    pub fn store(&mut self, operation: Operation)
        requires
            old(self).wf(),
        ensures
            final(self).wf(),
            final(self)@ == stored(old(self)@, operation@),
            final(self).history_limit() == old(self).history_limit(),
    {
        match self.find(operation.operation_id.as_str()) {
            Some(i) => {
                self.operations[i] = operation;
                assert(self@ =~= old(self)@.update(i as int, operation@));
            },
            None => {
                self.operations.push(operation);
                assert(self@ =~= old(self)@.push(operation@));
            },
        }
    }

    /// A copy of the record with the id `operation_id`, or `NotFound` with
    /// that id if the store holds none.
    pub fn get_operation(&self, operation_id: &str) -> (found: Result<Operation, TrackerError>)
        requires
            self.wf(),
        ensures
            match found {
                Ok(op) => lookup(self@, operation_id@) == Some(op@),
                Err(TrackerError::NotFound(id)) => lookup(self@, operation_id@) is None && id@
                    == operation_id@,
            },
    {
        match self.find(operation_id) {
            Some(i) => Ok(self.operations[i].clone()),
            None => Err(TrackerError::NotFound(String::from_str(operation_id))),
        }
    }

    /// Creates an operation: pending, nothing processed, with a fresh id and
    /// the current time. Returns the id.
    pub fn create_operation(
        &mut self,
        operation_type: OperationType,
        source_id: String,
        source_path: String,
        destination_path: Option<String>,
        file_size: Option<u64>,
    ) -> (operation_id: String)
        requires
            old(self).wf(),
        ensures
            final(self).wf(),
            final(self).history_limit() == old(self).history_limit(),
            exists|now: Timestamp|
                final(self)@ == stored(
                    old(self)@,
                    #[trigger] pending_record(
                        operation_id@,
                        operation_type,
                        source_id@,
                        source_path@,
                        text_of(destination_path),
                        file_size,
                        None,
                        None,
                        now,
                    ),
                ),
    {
        self.create_operation_with_context(
            operation_type,
            source_id,
            source_path,
            destination_path,
            file_size,
            None,
            None,
        )
    }

    /// Creates an operation as `create_operation` does, made by the given
    /// user within the given organization.
    pub fn create_operation_with_context(
        &mut self,
        operation_type: OperationType,
        source_id: String,
        source_path: String,
        destination_path: Option<String>,
        file_size: Option<u64>,
        user_id: Option<String>,
        organization_id: Option<String>,
    ) -> (operation_id: String)
        requires
            old(self).wf(),
        ensures
            final(self).wf(),
            final(self).history_limit() == old(self).history_limit(),
            exists|now: Timestamp|
                final(self)@ == stored(
                    old(self)@,
                    #[trigger] pending_record(
                        operation_id@,
                        operation_type,
                        source_id@,
                        source_path@,
                        text_of(destination_path),
                        file_size,
                        text_of(user_id),
                        text_of(organization_id),
                        now,
                    ),
                ),
    {
        let operation_id = fresh_operation_id();
        let now = current_time();
        let operation = Operation::pending(
            operation_id.clone(),
            operation_type,
            source_id,
            source_path,
            destination_path,
            file_size,
            user_id,
            organization_id,
            now,
        );
        self.store(operation);
        operation_id
    }

    /// Records a progress report made now.
    pub fn update_progress(&mut self, operation_id: &str, bytes_processed: u64)
        requires
            old(self).wf(),
        ensures
            final(self).wf(),
            final(self).history_limit() == old(self).history_limit(),
            exists|now: Timestamp|
                final(self)@ == #[trigger] with_progress(
                    old(self)@,
                    operation_id@,
                    bytes_processed,
                    now,
                ),
    {
        let now = current_time();
        self.update_progress_at(operation_id, bytes_processed, now)
    }

    /// Marks the operation completed now, then applies retention. Returns
    /// the completed record for the audit trail, or `None` if the id is
    /// unknown, in which case nothing changes.
    pub fn complete_operation(&mut self, operation_id: &str) -> (appended: Option<Operation>)
        requires
            old(self).wf(),
        ensures
            final(self).wf(),
            final(self).history_limit() == old(self).history_limit(),
            exists|now: Timestamp|
                final(self)@ == #[trigger] after_completion(
                    old(self)@,
                    operation_id@,
                    now,
                    old(self).history_limit() as int,
                ) && record_view(appended) == completed_record(old(self)@, operation_id@, now),
    {
        let now = current_time();
        self.complete_operation_at(operation_id, now)
    }

    /// Marks the operation failed now with the message `error`, then applies
    /// retention. Returns the failed record for the audit trail, or `None`
    /// if the id is unknown, in which case nothing changes.
    pub fn fail_operation(&mut self, operation_id: &str, error: String) -> (appended: Option<
        Operation,
    >)
        requires
            old(self).wf(),
        ensures
            final(self).wf(),
            final(self).history_limit() == old(self).history_limit(),
            exists|now: Timestamp|
                final(self)@ == #[trigger] after_failure(
                    old(self)@,
                    operation_id@,
                    error@,
                    now,
                    old(self).history_limit() as int,
                ) && record_view(appended) == failed_record(
                    old(self)@,
                    operation_id@,
                    error@,
                    now,
                ),
    {
        let now = current_time();
        self.fail_operation_at(operation_id, error, now)
    }

    /// Marks the operation canceled now, then applies retention. Returns the
    /// canceled record for the audit trail, or `None` if the id is unknown,
    /// in which case nothing changes.
    pub fn cancel_operation(&mut self, operation_id: &str) -> (appended: Option<Operation>)
        requires
            old(self).wf(),
        ensures
            final(self).wf(),
            final(self).history_limit() == old(self).history_limit(),
            exists|now: Timestamp|
                final(self)@ == #[trigger] after_cancellation(
                    old(self)@,
                    operation_id@,
                    now,
                    old(self).history_limit() as int,
                ) && record_view(appended) == canceled_record(old(self)@, operation_id@, now),
    {
        let now = current_time();
        self.cancel_operation_at(operation_id, now)
    }

    /// Records a progress report made at `now`. The count is overwritten,
    /// not held to grow; a report for an unknown id changes nothing.
    pub fn update_progress_at(&mut self, operation_id: &str, bytes_processed: u64, now: Timestamp)
        requires
            old(self).wf(),
        ensures
            final(self).wf(),
            final(self)@ == with_progress(old(self)@, operation_id@, bytes_processed, now),
            final(self).history_limit() == old(self).history_limit(),
    {
        if let Some(i) = self.find(operation_id) {
            self.operations[i].mark_progress(bytes_processed, now);
            assert(self@ =~= old(self)@.update(
                i as int,
                old(self)@[i as int].progressed(bytes_processed, now),
            ));
        }
    }

    /// Marks the operation completed at `now`, then applies retention. A
    /// size that was never given becomes the number of bytes processed. The
    /// transition is made from any status, a terminal one too.
    pub fn complete_operation_at(&mut self, operation_id: &str, now: Timestamp) -> (appended:
        Option<Operation>)
        requires
            old(self).wf(),
        ensures
            final(self).wf(),
            final(self).history_limit() == old(self).history_limit(),
            final(self)@ == after_completion(
                old(self)@,
                operation_id@,
                now,
                old(self).history_limit() as int,
            ),
            record_view(appended) == completed_record(old(self)@, operation_id@, now),
    {
        match self.find(operation_id) {
            Some(i) => {
                self.operations[i].mark_completed(now);
                let copy = self.operations[i].clone();
                assert(self@ =~= old(self)@.update(i as int, old(self)@[i as int].completed(now)));
                self.cleanup_old_operations();
                Some(copy)
            },
            None => None,
        }
    }

    /// Marks the operation failed at `now` with the message `error`, then
    /// applies retention. The transition is made from any status.
    pub fn fail_operation_at(&mut self, operation_id: &str, error: String, now: Timestamp) -> (appended:
        Option<Operation>)
        requires
            old(self).wf(),
        ensures
            final(self).wf(),
            final(self).history_limit() == old(self).history_limit(),
            final(self)@ == after_failure(
                old(self)@,
                operation_id@,
                error@,
                now,
                old(self).history_limit() as int,
            ),
            record_view(appended) == failed_record(old(self)@, operation_id@, error@, now),
    {
        match self.find(operation_id) {
            Some(i) => {
                self.operations[i].mark_failed(error, now);
                let copy = self.operations[i].clone();
                assert(self@ =~= old(self)@.update(
                    i as int,
                    old(self)@[i as int].failed(error@, now),
                ));
                self.cleanup_old_operations();
                Some(copy)
            },
            None => None,
        }
    }

    /// Marks the operation canceled at `now`, then applies retention. The
    /// transition is made from any status.
    pub fn cancel_operation_at(&mut self, operation_id: &str, now: Timestamp) -> (appended: Option<
        Operation,
    >)
        requires
            old(self).wf(),
        ensures
            final(self).wf(),
            final(self).history_limit() == old(self).history_limit(),
            final(self)@ == after_cancellation(
                old(self)@,
                operation_id@,
                now,
                old(self).history_limit() as int,
            ),
            record_view(appended) == canceled_record(old(self)@, operation_id@, now),
    {
        match self.find(operation_id) {
            Some(i) => {
                self.operations[i].mark_canceled(now);
                let copy = self.operations[i].clone();
                assert(self@ =~= old(self)@.update(i as int, old(self)@[i as int].canceled(now)));
                self.cleanup_old_operations();
                Some(copy)
            },
            None => None,
        }
    }

    /// Applies retention: of the operations that completed or failed, the
    /// `max_history` most recent stay and the rest leave the store.
    pub fn cleanup_old_operations(&mut self)
        requires
            old(self).wf(),
        ensures
            final(self).wf(),
            final(self).history_limit() == old(self).history_limit(),
            final(self)@ == retained(old(self)@, old(self).history_limit() as int),
    {
        let ghost s: Seq<OperationView> = self@;
        let ghost room = self.max_history as int;
        let n = self.operations.len();
        let mask = Filter::Evictable.mark(&self.operations);
        let times = Ranking::Recency.times(&self.operations);
        let (picked, keys) = select::<OperationView>(
            &mask,
            &times,
            Ghost(s),
            Ghost(evictable()),
            Ghost(by_recency()),
        );
        let order = newest_first(&keys);
        let mut keep: Vec<bool> = Vec::with_capacity(n);
        let mut i: usize = 0;
        while i < n
            invariant
                i <= n,
                keep.len() == i,
                forall|k: int| 0 <= k < i ==> keep[k],
            decreases n - i,
        {
            keep.push(true);
            i += 1;
        }
        proof {
            s.filter(evictable()).lemma_filter_len(evictable());
        }
        let ghost ranking = eviction_ranking(s);
        assert(ranking.len() == order.len());
        assert(forall|q: int|
            0 <= q < order.len() ==> ranking[q] == s[picked[#[trigger] order[q] as int] as int]);
        let mut r: usize = self.max_history;
        while r < order.len()
            invariant
                room == self.max_history,
                room <= r,
                r <= order.len() || r == room,
                keep.len() == n,
                n == s.len(),
                order.len() == picked.len(),
                forall|q: int| 0 <= q < order.len() ==> (#[trigger] order[q]) < picked.len(),
                forall|a: int| 0 <= a < picked.len() ==> (#[trigger] picked[a]) < n,
                forall|k: int|
                    0 <= k < n ==> #[trigger] keep[k] == !dropped(picked@, order@, room, r as int, k),
            decreases order.len() - r,
        {
            let at = picked[order[r]];
            let ghost before = keep@;
            keep.set(at, false);
            proof {
                assert forall|k: int| 0 <= k < n implies #[trigger] keep[k] == !dropped(
                    picked@,
                    order@,
                    room,
                    r + 1,
                    k,
                ) by {
                    if k == at {
                        assert(picked[order[r as int] as int] == k);
                    } else {
                        assert(keep[k] == before[k]);
                        if dropped(picked@, order@, room, r + 1, k) {
                            let q = choose|q: int|
                                room <= q < r + 1 && picked[#[trigger] order[q] as int] == k;
                            assert(q < r);
                        }
                    }
                }
            }
            r += 1;
        }
        proof {
            assert forall|k: int| 0 <= k < n implies keep[k] == survives(s, room)(
                #[trigger] self.operations[k]@,
            ) by {
                assert(self.operations[k]@ == s[k]);
                if evicts(s, room, s[k].operation_id) {
                    let q = choose|q: int|
                        room <= q < ranking.len() && (#[trigger] ranking[q]).operation_id
                            == s[k].operation_id;
                    let j = picked[order[q] as int] as int;
                    assert(ranking[q] == s[j]);
                    if j < k {
                        assert(s[j].operation_id != s[k].operation_id);
                    } else if k < j {
                        assert(s[k].operation_id != s[j].operation_id);
                    }
                    assert(j == k);
                    assert(dropped(picked@, order@, room, r as int, k));
                }
                if dropped(picked@, order@, room, r as int, k) {
                    let q = choose|q: int|
                        room <= q < r && picked[#[trigger] order[q] as int] == k;
                    assert(ranking[q] == s[k]);
                    assert(evicts(s, room, s[k].operation_id));
                }
            }
            lemma_filter_keeps_distinct(s, survives(s, room));
        }
        let mut all: Vec<Operation> = Vec::new();
        std::mem::swap(&mut self.operations, &mut all);
        self.operations = keep_where(all, &keep, Ghost(survives(s, room)));
    }

    /// Copies of all operations, in the order of the store.
    pub fn get_all_operations(&self) -> (all: Vec<Operation>)
        ensures
            views(all@) == self@,
    {
        let mask = Filter::Everything.mark(&self.operations);
        proof {
            lemma_filter_all(self@, everything());
        }
        copy_where(&self.operations, &mask, Ghost(everything()))
    }

    /// Copies of the operations of one type, in the order of the store.
    pub fn get_operations_by_type(&self, operation_type: &OperationType) -> (found: Vec<Operation>)
        ensures
            views(found@) == self@.filter(of_type(*operation_type)),
    {
        let mask = Filter::OfType(*operation_type).mark(&self.operations);
        copy_where(&self.operations, &mask, Ghost(of_type(*operation_type)))
    }

    /// Copies of the operations that are pending or in progress, in the
    /// order of the store.
    pub fn get_active_operations(&self) -> (found: Vec<Operation>)
        ensures
            views(found@) == self@.filter(active()),
    {
        let mask = Filter::Active.mark(&self.operations);
        copy_where(&self.operations, &mask, Ghost(active()))
    }

    /// Copies of the operations that completed or failed, the most recent
    /// first, at most `max_history` of them.
    pub fn get_completed_operations(&self) -> (found: Vec<Operation>)
        ensures
            views(found@) == newest(
                self@.filter(finished()),
                by_recency(),
                self.history_limit() as int,
            ),
    {
        let mask = Filter::Finished.mark(&self.operations);
        let times = Ranking::Recency.times(&self.operations);
        copy_newest(
            &self.operations,
            &mask,
            &times,
            self.max_history,
            Ghost(finished()),
            Ghost(by_recency()),
        )
    }

    /// Copies of the operations made by one user, the most recently created
    /// first.
    pub fn get_operations_by_user(&self, user_id: &str) -> (found: Vec<Operation>)
        ensures
            views(found@) == newest(
                self@.filter(of_user(user_id@)),
                by_history_time(),
                self@.len() as int,
            ),
    {
        let mask = Filter::OfUser(user_id).mark(&self.operations);
        let times = Ranking::HistoryTime.times(&self.operations);
        copy_newest(
            &self.operations,
            &mask,
            &times,
            self.operations.len(),
            Ghost(of_user(user_id@)),
            Ghost(by_history_time()),
        )
    }

    /// Copies of the operations made within one organization, the most
    /// recently created first.
    pub fn get_operations_by_organization(&self, organization_id: &str) -> (found: Vec<Operation>)
        ensures
            views(found@) == newest(
                self@.filter(of_organization(organization_id@)),
                by_history_time(),
                self@.len() as int,
            ),
    {
        let mask = Filter::OfOrganization(organization_id).mark(&self.operations);
        let times = Ranking::HistoryTime.times(&self.operations);
        copy_newest(
            &self.operations,
            &mask,
            &times,
            self.operations.len(),
            Ghost(of_organization(organization_id@)),
            Ghost(by_history_time()),
        )
    }
}

} // verus!
