//! Retention: how many finished operations the store keeps, and which.

use vstd::prelude::*;
use vstd::set_lib::*;
use crate::model::OperationView;
use crate::order::{lemma_newest_first_covers, lemma_newest_first_exists, newer, newest_first_order};
use crate::query::{by_recency, evictable};
use crate::select::{keys_of, lemma_filter_sound, lemma_newest_draws, lemma_newest_sorted, newest};
use crate::tracker::distinct_ids;

verus! {

/// The records of `s` that retention may evict, newest first.
pub open spec fn eviction_ranking(s: Seq<OperationView>) -> Seq<OperationView> {
    newest(s.filter(evictable()), by_recency(), s.len() as int)
}

/// Retention with room for `keep` evicts the record with the id `id`: the
/// record is ranked behind `keep` others.
pub open spec fn evicts(s: Seq<OperationView>, keep: int, id: Seq<char>) -> bool {
    exists|r: int|
        keep <= r < eviction_ranking(s).len() && (#[trigger] eviction_ranking(s)[r]).operation_id
            == id
}

/// The records that retention with room for `keep` leaves in `s`.
pub open spec fn survives(s: Seq<OperationView>, keep: int) -> spec_fn(OperationView) -> bool {
    |op: OperationView| !evicts(s, keep, op.operation_id)
}

/// `s` after retention: of the records that completed or failed and have an
/// instant to rank them by, the `keep` most recent stay; every other record
/// stays too, and all keep their order. A canceled record is never evicted.
pub open spec fn retained(s: Seq<OperationView>, keep: int) -> Seq<OperationView> {
    s.filter(survives(s, keep))
}

/// Every record that a filter lets through was in the sequence, and
/// distinct ids stay distinct.
pub proof fn lemma_filter_keeps_distinct(
    s: Seq<OperationView>,
    pred: spec_fn(OperationView) -> bool,
)
    requires
        distinct_ids(s),
    ensures
        distinct_ids(s.filter(pred)),
        forall|a: int| 0 <= a < s.filter(pred).len() ==> s.contains(#[trigger] s.filter(pred)[a]),
    decreases s.len(),
{
    reveal(Seq::filter);
    if s.len() > 0 {
        let front = s.drop_last();
        let sub = front.filter(pred);
        lemma_filter_keeps_distinct(front, pred);
        assert forall|a: int| 0 <= a < sub.len() implies s.contains(#[trigger] sub[a]) && sub[a].operation_id
            != s.last().operation_id by {
            assert(front.contains(sub[a]));
            let k = choose|k: int| 0 <= k < front.len() && front[k] == sub[a];
            assert(s[k] == sub[a]);
        }
        if pred(s.last()) {
            assert(s[s.len() - 1] == s.last());
        }
    }
}

/// Every entry of the eviction ranking is an evictable record of `s`.
pub proof fn lemma_ranking_members(s: Seq<OperationView>, r: int)
    requires
        s.len() <= usize::MAX,
        0 <= r < eviction_ranking(s).len(),
    ensures
        evictable()(eviction_ranking(s)[r]),
        s.contains(eviction_ranking(s)[r]),
{
    let cands = s.filter(evictable());
    cands.lemma_filter_len(evictable());
    s.lemma_filter_len(evictable());
    lemma_newest_draws(cands, by_recency(), s.len() as int);
    lemma_filter_sound(s, evictable());
    let from = newest_first_order(keys_of(cands, by_recency()))[r] as int;
    assert(eviction_ranking(s)[r] == cands[from]);
}

/// Every evictable record of `s` stands somewhere in the eviction ranking.
pub proof fn lemma_ranking_covers(s: Seq<OperationView>, i: int)
    requires
        s.len() <= usize::MAX,
        0 <= i < s.len(),
        evictable()(s[i]),
    ensures
        exists|r: int| 0 <= r < eviction_ranking(s).len() && #[trigger] eviction_ranking(s)[r] == s[i],
{
    let cands = s.filter(evictable());
    let keys = keys_of(cands, by_recency());
    let order = newest_first_order(keys);
    s.lemma_filter_len(evictable());
    lemma_filter_sound(s, evictable());
    assert(cands.contains(s[i]));
    let c = choose|c: int| 0 <= c < cands.len() && cands[c] == s[i];
    lemma_newest_first_exists(keys);
    lemma_newest_first_covers(keys, order, c);
    let r = choose|r: int| 0 <= r < order.len() && order[r] == c;
    assert(eviction_ranking(s)[r] == s[i]);
}

/// Retention evicts only what is evictable: a record that is pending, in
/// progress or canceled, or that has no instant to rank it by, stays.
pub proof fn lemma_retained_keeps_others(s: Seq<OperationView>, keep: int, i: int)
    requires
        distinct_ids(s),
        s.len() <= usize::MAX,
        0 <= keep,
        0 <= i < s.len(),
        !evictable()(s[i]),
    ensures
        retained(s, keep).contains(s[i]),
{
    if evicts(s, keep, s[i].operation_id) {
        let r = choose|r: int|
            keep <= r < eviction_ranking(s).len() && (#[trigger] eviction_ranking(s)[r]).operation_id
                == s[i].operation_id;
        lemma_ranking_members(s, r);
        let j = choose|j: int| 0 <= j < s.len() && s[j] == eviction_ranking(s)[r];
        if j < i {
            assert(s[j].operation_id != s[i].operation_id);
        } else if i < j {
            assert(s[i].operation_id != s[j].operation_id);
        }
    }
    lemma_filter_sound(s, survives(s, keep));
}

/// Retention keeps the most recent: no record that it evicts is more
/// recent than an evictable record that it keeps.
pub proof fn lemma_retained_most_recent(s: Seq<OperationView>, keep: int, i: int, j: int)
    requires
        distinct_ids(s),
        s.len() <= usize::MAX,
        0 <= keep,
        0 <= i < s.len(),
        0 <= j < s.len(),
        evictable()(s[i]),
        !evicts(s, keep, s[i].operation_id),
        evicts(s, keep, s[j].operation_id),
    ensures
        !newer(s[j].recency(), s[i].recency()),
{
    let ranking = eviction_ranking(s);
    let cands = s.filter(evictable());
    lemma_ranking_covers(s, i);
    let a = choose|a: int| 0 <= a < ranking.len() && #[trigger] ranking[a] == s[i];
    let b = choose|b: int|
        keep <= b < ranking.len() && (#[trigger] ranking[b]).operation_id == s[j].operation_id;
    assert(a < keep);
    lemma_ranking_members(s, b);
    let k = choose|k: int| 0 <= k < s.len() && s[k] == ranking[b];
    if k < j {
        assert(s[k].operation_id != s[j].operation_id);
    } else if j < k {
        assert(s[j].operation_id != s[k].operation_id);
    }
    assert(ranking[b] == s[j]);
    s.lemma_filter_len(evictable());
    lemma_newest_sorted(cands, by_recency(), s.len() as int, a, b);
}

/// After retention at most `keep` evictable records are left.
pub proof fn lemma_retained_bound(s: Seq<OperationView>, keep: int)
    requires
        distinct_ids(s),
        s.len() <= usize::MAX,
        0 <= keep,
    ensures
        retained(s, keep).filter(evictable()).len() <= keep,
{
    let ranking = eviction_ranking(s);
    let kept = retained(s, keep).filter(evictable());
    let top = if keep < ranking.len() {
        keep
    } else {
        ranking.len() as int
    };
    let ids = Seq::new(kept.len(), |a: int| kept[a].operation_id);
    let top_ids = Seq::new(top as nat, |r: int| ranking[r].operation_id);
    lemma_filter_keeps_distinct(s, survives(s, keep));
    lemma_filter_keeps_distinct(retained(s, keep), evictable());
    lemma_filter_sound(s, survives(s, keep));
    lemma_filter_sound(retained(s, keep), evictable());
    assert(ids.no_duplicates()) by {
        assert forall|a: int, b: int| 0 <= a < ids.len() && 0 <= b < ids.len() && a != b implies ids[a]
            != ids[b] by {
            if a < b {
                assert(kept[a].operation_id != kept[b].operation_id);
            } else {
                assert(kept[b].operation_id != kept[a].operation_id);
            }
        }
    }
    ids.unique_seq_to_set();
    top_ids.lemma_cardinality_of_set();
    assert(ids.to_set().subset_of(top_ids.to_set())) by {
        assert forall|id: Seq<char>| ids.to_set().contains(id) implies top_ids.to_set().contains(
            id,
        ) by {
            let a = choose|a: int| 0 <= a < ids.len() && ids[a] == id;
            let x = kept[a];
            assert(retained(s, keep).contains(x));
            let m = choose|m: int| 0 <= m < retained(s, keep).len() && retained(s, keep)[m] == x;
            assert(survives(s, keep)(retained(s, keep)[m]));
            assert(s.contains(retained(s, keep)[m]));
            let i = choose|i: int| 0 <= i < s.len() && s[i] == x;
            lemma_ranking_covers(s, i);
            let r = choose|r: int| 0 <= r < ranking.len() && #[trigger] ranking[r] == s[i];
            assert(r < keep);
            assert(top_ids[r] == id);
        }
    }
    vstd::seq_lib::seq_to_set_is_finite(top_ids);
    lemma_len_subset(ids.to_set(), top_ids.to_set());
}

} // verus!
