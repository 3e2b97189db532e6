//! Reading the audit trail back, and restoring the store from a snapshot.
//!
//! The audit trail holds one serialized record per line. Whoever reads it
//! hands over, for each line in file order, the record that the line held
//! or `None` for a line that did not parse; a line that does not parse
//! costs that line only.

use vstd::prelude::*;
use crate::model::{Operation, OperationView};
use crate::order::newer;
use crate::query::{by_history_time, everything, of_organization, Filter, Ranking};
use crate::select::{
    copy_newest, keep_where, lemma_filter_all, lemma_newest_sorted, newest, views,
};
use crate::tracker::{stored, OperationTracker};

verus! {

/// The records that parsed, in the order of their lines.
pub open spec fn parsed(records: Seq<Option<Operation>>) -> Seq<OperationView>
    decreases records.len(),
{
    if records.len() == 0 {
        Seq::empty()
    } else {
        match records.last() {
            Some(op) => parsed(records.drop_last()).push(op@),
            None => parsed(records.drop_last()),
        }
    }
}

/// How many of `all` entries a listing shows under `limit`.
pub open spec fn shown(limit: Option<usize>, all: nat) -> int {
    match limit {
        Some(n) => n as int,
        None => all as int,
    }
}

/// The audit history that `records` give: the records that parsed, the most
/// recently created first, cut off after `limit` entries if one is set.
pub open spec fn audit_history(records: Seq<Option<Operation>>, limit: Option<usize>) -> Seq<
    OperationView,
> {
    newest(parsed(records), by_history_time(), shown(limit, parsed(records).len()))
}

/// `s` after each of `ops` was stored in turn.
pub open spec fn stored_all(s: Seq<OperationView>, ops: Seq<OperationView>) -> Seq<OperationView>
    decreases ops.len(),
{
    if ops.len() == 0 {
        s
    } else {
        stored(stored_all(s, ops.drop_last()), ops.last())
    }
}

/// Reading one line more appends its record, or nothing if it did not
/// parse.
pub proof fn lemma_parsed_step(records: Seq<Option<Operation>>, i: int)
    requires
        0 <= i < records.len(),
    ensures
        parsed(records.take(i + 1)) == match records[i] {
            Some(op) => parsed(records.take(i)).push(op@),
            None => parsed(records.take(i)),
        },
{
    assert(records.take(i + 1).drop_last() =~= records.take(i));
}

/// The records that parsed, moved out of `records`.
fn present(records: Vec<Option<Operation>>) -> (ops: Vec<Operation>)
    ensures
        views(ops@) == parsed(records@),
{
    let ghost all = records@;
    let n = records.len();
    let mut ops: Vec<Operation> = Vec::new();
    let mut i: usize = 0;
    proof {
        assert(views(ops@) =~= parsed(all.take(0)));
    }
    for record in it: records
        invariant
            i == it.index(),
            it.seq() == all,
            all.len() == n,
            views(ops@) == parsed(all.take(i as int)),
    {
        proof {
            lemma_parsed_step(all, i as int);
        }
        if let Some(op) = record {
            let ghost before = ops@;
            ops.push(op);
            assert(views(ops@) =~= views(before).push(op@));
        }
        i += 1;
    }
    proof {
        assert(all.take(i as int) =~= all);
    }
    ops
}

impl OperationTracker {
    /// The audit history: of the records read from the audit trail, those
    /// that parsed, the most recently created first (by creation time, else
    /// by the time of the last update; records without either come last),
    /// at most `limit` of them if a limit is given.
    pub fn get_audit_history(records: Vec<Option<Operation>>, limit: Option<usize>) -> (history:
        Vec<Operation>)
        ensures
            views(history@) == audit_history(records@, limit),
            forall|a: int, b: int|
                0 <= a <= b < history.len() ==> !newer(
                    (#[trigger] history[b])@.history_time(),
                    (#[trigger] history[a])@.history_time(),
                ),
    {
        let ops = present(records);
        let mask = Filter::Everything.mark(&ops);
        let times = Ranking::HistoryTime.times(&ops);
        let most = match limit {
            Some(n) => n,
            None => ops.len(),
        };
        proof {
            lemma_filter_all(views(ops@), everything());
        }
        let history = copy_newest(
            &ops,
            &mask,
            &times,
            most,
            Ghost(everything()),
            Ghost(by_history_time()),
        );
        proof {
            let items = views(ops@);
            assert forall|a: int, b: int| 0 <= a <= b < history.len() implies !newer(
                (#[trigger] history[b])@.history_time(),
                (#[trigger] history[a])@.history_time(),
            ) by {
                lemma_newest_sorted(items, by_history_time(), most as int, a, b);
                assert(views(history@)[a] == history[a]@);
                assert(views(history@)[b] == history[b]@);
            }
        }
        history
    }

    /// The audit history of one organization: the history under `limit`,
    /// and of it the records made within `organization_id`. The limit is
    /// applied first, so fewer than `limit` records may come back even where
    /// the trail holds more of the organization's.
    pub fn get_organization_audit(
        records: Vec<Option<Operation>>,
        organization_id: &str,
        limit: Option<usize>,
    ) -> (history: Vec<Operation>)
        ensures
            views(history@) == audit_history(records@, limit).filter(
                of_organization(organization_id@),
            ),
    {
        let all = OperationTracker::get_audit_history(records, limit);
        let mask = Filter::OfOrganization(organization_id).mark(&all);
        keep_where(all, &mask, Ghost(of_organization(organization_id@)))
    }

    /// Replaces what the store holds by the records of a snapshot, each
    /// stored under its id in turn: of two records with one id the later
    /// stays.
    pub fn load_state(&mut self, operations: Vec<Operation>)
        ensures
            final(self).wf(),
            final(self).history_limit() == old(self).history_limit(),
            final(self)@ == stored_all(Seq::empty(), views(operations@)),
    {
        let ghost all = operations@;
        let ghost limit = self.history_limit();
        let n = operations.len();
        self.clear();
        let mut i: usize = 0;
        proof {
            assert(views(all).take(0) =~= Seq::<OperationView>::empty());
        }
        for op in it: operations
            invariant
                i == it.index(),
                it.seq() == all,
                all.len() == n,
                self.wf(),
                self.history_limit() == limit,
                self@ == stored_all(Seq::empty(), views(all).take(i as int)),
        {
            proof {
                assert(views(all).take(i + 1).drop_last() =~= views(all).take(i as int));
                assert(views(all).take(i + 1).last() == op@);
            }
            self.store(op);
            i += 1;
        }
        proof {
            assert(views(all).take(i as int) =~= views(all));
        }
    }
}

} // verus!
