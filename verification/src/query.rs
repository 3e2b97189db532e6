//! The questions that can be asked of a set of operations: which ones, and
//! ranked by what.

use vstd::prelude::*;
use crate::model::{Operation, OperationType, OperationView};
use crate::text::text_is;
use crate::time::Timestamp;

verus! {

/// Every operation.
pub open spec fn everything() -> spec_fn(OperationView) -> bool {
    |op: OperationView| true
}

/// The operations of one type.
pub open spec fn of_type(operation_type: OperationType) -> spec_fn(OperationView) -> bool {
    |op: OperationView| op.operation_type == operation_type
}

/// The operations that are pending or in progress.
pub open spec fn active() -> spec_fn(OperationView) -> bool {
    |op: OperationView| op.status.active()
}

/// The operations that completed or failed.
pub open spec fn finished() -> spec_fn(OperationView) -> bool {
    |op: OperationView| op.status.finished()
}

/// The operations made by the user `user_id`.
pub open spec fn of_user(user_id: Seq<char>) -> spec_fn(OperationView) -> bool {
    |op: OperationView| op.user_id == Some(user_id)
}

/// The operations made within the organization `organization_id`.
pub open spec fn of_organization(organization_id: Seq<char>) -> spec_fn(OperationView) -> bool {
    |op: OperationView| op.organization_id == Some(organization_id)
}

/// The operations that retention may evict: completed or failed, with an
/// instant to rank them by.
pub open spec fn evictable() -> spec_fn(OperationView) -> bool {
    |op: OperationView| op.status.finished() && op.recency() is Some
}

/// Ranking by completion, else last update, else creation.
pub open spec fn by_recency() -> spec_fn(OperationView) -> Option<Timestamp> {
    |op: OperationView| op.recency()
}

/// Ranking by creation, else last update.
pub open spec fn by_history_time() -> spec_fn(OperationView) -> Option<Timestamp> {
    |op: OperationView| op.history_time()
}

/// A choice among operations.
pub enum Filter<'a> {
    Everything,
    OfType(OperationType),
    Active,
    Finished,
    OfUser(&'a str),
    OfOrganization(&'a str),
    Evictable,
}

impl<'a> Filter<'a> {
    /// The operations that the filter lets through.
    pub open spec fn accepts(self) -> spec_fn(OperationView) -> bool {
        match self {
            Filter::Everything => everything(),
            Filter::OfType(t) => of_type(t),
            Filter::Active => active(),
            Filter::Finished => finished(),
            Filter::OfUser(user_id) => of_user(user_id@),
            Filter::OfOrganization(organization_id) => of_organization(organization_id@),
            Filter::Evictable => evictable(),
        }
    }

    /// Whether the filter lets `op` through.
    pub fn test(&self, op: &Operation) -> (r: bool)
        ensures
            r == (self.accepts())(op@),
    {
        match self {
            Filter::Everything => true,
            Filter::OfType(t) => op.operation_type == *t,
            Filter::Active => op.status.is_active(),
            Filter::Finished => op.status.is_finished(),
            Filter::OfUser(user_id) => text_is(&op.user_id, user_id),
            Filter::OfOrganization(organization_id) => text_is(
                &op.organization_id,
                organization_id,
            ),
            Filter::Evictable => op.status.is_finished() && op.recency().is_some(),
        }
    }

    /// For each of `ops`, whether the filter lets it through.
    pub fn mark(&self, ops: &Vec<Operation>) -> (mask: Vec<bool>)
        ensures
            mask.len() == ops.len(),
            forall|i: int| 0 <= i < ops.len() ==> mask[i] == (self.accepts())(#[trigger] ops[i]@),
    {
        let mut mask: Vec<bool> = Vec::with_capacity(ops.len());
        let mut i: usize = 0;
        while i < ops.len()
            invariant
                i <= ops.len(),
                mask.len() == i,
                forall|k: int| 0 <= k < i ==> mask[k] == (self.accepts())(#[trigger] ops[k]@),
            decreases ops.len() - i,
        {
            mask.push(self.test(&ops[i]));
            i += 1;
        }
        mask
    }
}

/// An instant to rank operations by.
#[derive(Clone, Copy)]
pub enum Ranking {
    Recency,
    HistoryTime,
}

impl Ranking {
    /// The instant that the ranking reads from an operation.
    pub open spec fn key(self) -> spec_fn(OperationView) -> Option<Timestamp> {
        match self {
            Ranking::Recency => by_recency(),
            Ranking::HistoryTime => by_history_time(),
        }
    }

    /// The instant of `op` under this ranking.
    pub fn time_of(&self, op: &Operation) -> (t: Option<Timestamp>)
        ensures
            t == (self.key())(op@),
    {
        match self {
            Ranking::Recency => op.recency(),
            Ranking::HistoryTime => op.history_time(),
        }
    }

    /// The instants of `ops` under this ranking.
    pub fn times(&self, ops: &Vec<Operation>) -> (times: Vec<Option<Timestamp>>)
        ensures
            times.len() == ops.len(),
            forall|i: int| 0 <= i < ops.len() ==> times[i] == (self.key())(#[trigger] ops[i]@),
    {
        let mut times: Vec<Option<Timestamp>> = Vec::with_capacity(ops.len());
        let mut i: usize = 0;
        while i < ops.len()
            invariant
                i <= ops.len(),
                times.len() == i,
                forall|k: int| 0 <= k < i ==> times[k] == (self.key())(#[trigger] ops[k]@),
            decreases ops.len() - i,
        {
            times.push(self.time_of(&ops[i]));
            i += 1;
        }
        times
    }
}

} // verus!
