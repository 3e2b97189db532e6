//! Choosing records by a predicate and listing them newest first.

use vstd::prelude::*;
use crate::order::{
    lemma_newest_first_exists, lemma_newest_first_sorted, listed, newer, newest_first,
    newest_first_order, within,
};
use crate::time::Timestamp;

verus! {

/// A record of which an equal copy can be made.
pub trait Record: View + Sized {
    fn duplicate(&self) -> (copy: Self)
        ensures
            copy == *self,
    ;
}

/// The views of a sequence of records.
pub open spec fn views<T: View>(records: Seq<T>) -> Seq<T::V> {
    Seq::new(records.len(), |i: int| records[i]@)
}

/// The ranking instants of `items` under `key`.
pub open spec fn keys_of<V>(items: Seq<V>, key: spec_fn(V) -> Option<Timestamp>) -> Seq<
    Option<Timestamp>,
> {
    Seq::new(items.len(), |a: int| key(items[a]))
}

/// The first `limit` of `items` when they are ranked newest first by `key`:
/// a later instant first, an absent instant last, equal instants in the
/// order of `items`.
pub open spec fn newest<V>(
    items: Seq<V>,
    key: spec_fn(V) -> Option<Timestamp>,
    limit: int,
) -> Seq<V> {
    listed(items, keys_of(items, key), limit)
}

/// A newest-first listing shows `limit` items, or all if there are fewer.
pub proof fn lemma_newest_len<V>(items: Seq<V>, key: spec_fn(V) -> Option<Timestamp>, limit: int)
    requires
        0 <= limit,
    ensures
        newest(items, key, limit).len() == if limit < items.len() {
            limit
        } else {
            items.len() as int
        },
{
}

/// A newest-first listing is sorted: no entry is more recent than one that
/// stands before it.
pub proof fn lemma_newest_sorted<V>(
    items: Seq<V>,
    key: spec_fn(V) -> Option<Timestamp>,
    limit: int,
    a: int,
    b: int,
)
    requires
        items.len() <= usize::MAX,
        0 <= limit,
        0 <= a <= b < newest(items, key, limit).len(),
    ensures
        !newer(key(newest(items, key, limit)[b]), key(newest(items, key, limit)[a])),
{
    let keys = keys_of(items, key);
    let order = newest_first_order(keys);
    lemma_newest_first_exists(keys);
    lemma_newest_first_sorted(keys, a, b);
    assert(order[a] < keys.len() && order[b] < keys.len());
}

/// Every entry of a newest-first listing is one of the items, and no item
/// is listed twice: entries at different places come from different
/// places.
pub proof fn lemma_newest_draws<V>(
    items: Seq<V>,
    key: spec_fn(V) -> Option<Timestamp>,
    limit: int,
)
    requires
        items.len() <= usize::MAX,
        0 <= limit,
    ensures
        forall|r: int|
            0 <= r < newest(items, key, limit).len() ==> {
                let from = #[trigger] newest_first_order(keys_of(items, key))[r];
                from < items.len() && newest(items, key, limit)[r] == items[from as int]
            },
        forall|a: int, b: int|
            0 <= a < b < newest(items, key, limit).len() ==> newest_first_order(
                keys_of(items, key),
            )[a] != newest_first_order(keys_of(items, key))[b],
{
    let keys = keys_of(items, key);
    let order = newest_first_order(keys);
    lemma_newest_first_exists(keys);
    crate::order::lemma_newest_first_distinct(keys, order);
}

/// Filtering one element more either appends that element or changes
/// nothing.
pub proof fn lemma_filter_step<A>(s: Seq<A>, pred: spec_fn(A) -> bool, i: int)
    requires
        0 <= i < s.len(),
    ensures
        s.take(i + 1).filter(pred) == if pred(s[i]) {
            s.take(i).filter(pred).push(s[i])
        } else {
            s.take(i).filter(pred)
        },
{
    reveal(Seq::filter);
    assert(s.take(i + 1).drop_last() =~= s.take(i));
}

/// What a filter lets through satisfies the predicate and was in the
/// sequence, and whatever satisfies the predicate gets through.
pub proof fn lemma_filter_sound<A>(s: Seq<A>, pred: spec_fn(A) -> bool)
    ensures
        forall|a: int|
            0 <= a < s.filter(pred).len() ==> pred(#[trigger] s.filter(pred)[a]) && s.contains(
                s.filter(pred)[a],
            ),
        forall|i: int| 0 <= i < s.len() && pred(s[i]) ==> s.filter(pred).contains(#[trigger] s[i]),
    decreases s.len(),
{
    reveal(Seq::filter);
    if s.len() > 0 {
        let front = s.drop_last();
        let sub = front.filter(pred);
        let out = s.filter(pred);
        lemma_filter_sound(front, pred);
        assert forall|a: int| 0 <= a < out.len() implies pred(#[trigger] out[a]) && s.contains(
            out[a],
        ) by {
            if a < sub.len() {
                assert(out[a] == sub[a]);
                assert(front.contains(sub[a]));
                let k = choose|k: int| 0 <= k < front.len() && front[k] == sub[a];
                assert(s[k] == sub[a]);
            } else {
                assert(out[a] == s[s.len() - 1]);
            }
        }
        assert forall|i: int| 0 <= i < s.len() && pred(s[i]) implies out.contains(
            #[trigger] s[i],
        ) by {
            if i < s.len() - 1 {
                assert(front[i] == s[i]);
                assert(sub.contains(front[i]));
                let k = choose|k: int| 0 <= k < sub.len() && sub[k] == s[i];
                assert(out[k] == s[i]);
            } else {
                assert(out[out.len() - 1] == s[i]);
            }
        }
    }
}

/// A filter that lets every item through changes nothing.
pub proof fn lemma_filter_all<A>(s: Seq<A>, pred: spec_fn(A) -> bool)
    requires
        forall|i: int| 0 <= i < s.len() ==> pred(#[trigger] s[i]),
    ensures
        s.filter(pred) == s,
    decreases s.len(),
{
    reveal(Seq::filter);
    if s.len() > 0 {
        lemma_filter_all(s.drop_last(), pred);
        assert(s.drop_last().push(s.last()) =~= s);
    }
}

/// The positions of the items that `mask` marks, in rising order, and the
/// ranking instants of those items.
pub(crate) fn select<V>(
    mask: &Vec<bool>,
    times: &Vec<Option<Timestamp>>,
    Ghost(items): Ghost<Seq<V>>,
    Ghost(pred): Ghost<spec_fn(V) -> bool>,
    Ghost(key): Ghost<spec_fn(V) -> Option<Timestamp>>,
) -> (chosen: (Vec<usize>, Vec<Option<Timestamp>>))
    requires
        mask.len() == items.len(),
        times.len() == items.len(),
        forall|i: int| 0 <= i < items.len() ==> mask[i] == pred(items[i]),
        forall|i: int| 0 <= i < items.len() ==> times[i] == key(items[i]),
    ensures
        chosen.0.len() == items.filter(pred).len(),
        chosen.1@ == keys_of(items.filter(pred), key),
        forall|a: int|
            0 <= a < chosen.0.len() ==> (#[trigger] chosen.0[a]) < items.len()
                && items[chosen.0[a] as int] == items.filter(pred)[a],
        forall|a: int, b: int|
            0 <= a < b < chosen.0.len() ==> (#[trigger] chosen.0[a]) < (#[trigger] chosen.0[b]),
{
    let mut picked: Vec<usize> = Vec::new();
    let mut keys: Vec<Option<Timestamp>> = Vec::new();
    let mut i: usize = 0;
    proof {
        reveal(Seq::filter);
        assert(items.take(0).filter(pred) =~= Seq::<V>::empty());
    }
    while i < mask.len()
        invariant
            i <= mask.len(),
            mask.len() == items.len(),
            times.len() == items.len(),
            forall|i: int| 0 <= i < items.len() ==> mask[i] == pred(items[i]),
            forall|i: int| 0 <= i < items.len() ==> times[i] == key(items[i]),
            picked.len() == items.take(i as int).filter(pred).len(),
            keys.len() == picked.len(),
            forall|a: int|
                0 <= a < picked.len() ==> (#[trigger] picked[a]) < i && items[picked[a] as int]
                    == items.take(i as int).filter(pred)[a],
            forall|a: int|
                0 <= a < keys.len() ==> #[trigger] keys[a] == key(
                    items.take(i as int).filter(pred)[a],
                ),
            forall|a: int, b: int|
                0 <= a < b < picked.len() ==> (#[trigger] picked[a]) < (#[trigger] picked[b]),
        decreases mask.len() - i,
    {
        proof {
            lemma_filter_step(items, pred, i as int);
        }
        if mask[i] {
            picked.push(i);
            keys.push(times[i]);
        }
        i += 1;
    }
    proof {
        assert(items.take(i as int) =~= items);
        assert(keys@ =~= keys_of(items.filter(pred), key));
    }
    (picked, keys)
}

/// Copies of the records that `mask` marks, in their order.
pub(crate) fn copy_where<T: Record>(
    ops: &Vec<T>,
    mask: &Vec<bool>,
    Ghost(pred): Ghost<spec_fn(T::V) -> bool>,
) -> (out: Vec<T>)
    requires
        mask.len() == ops.len(),
        forall|i: int| 0 <= i < ops.len() ==> mask[i] == pred(#[trigger] ops[i]@),
    ensures
        views(out@) == views(ops@).filter(pred),
{
    let ghost items: Seq<T::V> = views(ops@);
    let mut out: Vec<T> = Vec::new();
    let mut i: usize = 0;
    proof {
        reveal(Seq::filter);
        assert(items.take(0).filter(pred) =~= Seq::<T::V>::empty());
        assert(views(out@) =~= Seq::<T::V>::empty());
    }
    while i < ops.len()
        invariant
            i <= ops.len(),
            mask.len() == ops.len(),
            items == views(ops@),
            forall|i: int| 0 <= i < ops.len() ==> mask[i] == pred(#[trigger] ops[i]@),
            views(out@) == items.take(i as int).filter(pred),
        decreases ops.len() - i,
    {
        proof {
            lemma_filter_step(items, pred, i as int);
        }
        if mask[i] {
            let ghost before = out@;
            out.push(ops[i].duplicate());
            assert(views(out@) =~= views(before).push(ops[i as int]@));
        }
        i += 1;
    }
    proof {
        assert(items.take(i as int) =~= items);
    }
    out
}

/// The records that `mask` marks, moved out of `ops` in their order.
pub(crate) fn keep_where<T: View>(
    ops: Vec<T>,
    mask: &Vec<bool>,
    Ghost(pred): Ghost<spec_fn(T::V) -> bool>,
) -> (out: Vec<T>)
    requires
        mask.len() == ops.len(),
        forall|i: int| 0 <= i < ops.len() ==> mask[i] == pred(#[trigger] ops[i]@),
    ensures
        views(out@) == views(ops@).filter(pred),
{
    let ghost items: Seq<T::V> = views(ops@);
    let ghost all = ops@;
    let mut out: Vec<T> = Vec::new();
    let mut i: usize = 0;
    proof {
        reveal(Seq::filter);
        assert(items.take(0).filter(pred) =~= Seq::<T::V>::empty());
        assert(views(out@) =~= Seq::<T::V>::empty());
    }
    for op in it: ops
        invariant
            i == it.index(),
            it.seq() == all,
            mask.len() == all.len(),
            items == views(all),
            forall|i: int| 0 <= i < all.len() ==> mask[i] == pred(#[trigger] all[i]@),
            views(out@) == items.take(i as int).filter(pred),
    {
        proof {
            lemma_filter_step(items, pred, i as int);
        }
        if mask[i] {
            let ghost before = out@;
            out.push(op);
            assert(views(out@) =~= views(before).push(op@));
        }
        i += 1;
    }
    proof {
        assert(items.take(i as int) =~= items);
    }
    out
}

/// Copies of the first `limit` marked records when those are ranked newest
/// first by `times`.
pub(crate) fn copy_newest<T: Record>(
    ops: &Vec<T>,
    mask: &Vec<bool>,
    times: &Vec<Option<Timestamp>>,
    limit: usize,
    Ghost(pred): Ghost<spec_fn(T::V) -> bool>,
    Ghost(key): Ghost<spec_fn(T::V) -> Option<Timestamp>>,
) -> (out: Vec<T>)
    requires
        mask.len() == ops.len(),
        times.len() == ops.len(),
        forall|i: int| 0 <= i < ops.len() ==> mask[i] == pred(#[trigger] ops[i]@),
        forall|i: int| 0 <= i < ops.len() ==> times[i] == key(#[trigger] ops[i]@),
    ensures
        views(out@) == newest(views(ops@).filter(pred), key, limit as int),
{
    let ghost items: Seq<T::V> = views(ops@);
    let ghost chosen_items: Seq<T::V> = items.filter(pred);
    let (picked, keys) = select::<T::V>(
        mask,
        times,
        Ghost(items),
        Ghost(pred),
        Ghost(key),
    );
    let order = newest_first(&keys);
    let shown = if limit < order.len() {
        limit
    } else {
        order.len()
    };
    let mut out: Vec<T> = Vec::new();
    let mut r: usize = 0;
    while r < shown
        invariant
            r <= shown <= order.len(),
            order.len() == picked.len(),
            picked.len() == chosen_items.len(),
            items == views(ops@),
            within(order@, 0, picked.len() as int),
            forall|a: int|
                0 <= a < picked.len() ==> (#[trigger] picked[a]) < items.len()
                    && items[picked[a] as int] == chosen_items[a],
            out.len() == r,
            forall|k: int| 0 <= k < r ==> (#[trigger] out[k])@ == chosen_items[order[k] as int],
        decreases shown - r,
    {
        let at = picked[order[r]];
        out.push(ops[at].duplicate());
        r += 1;
    }
    proof {
        assert(views(out@) =~= newest(chosen_items, key, limit as int));
    }
    out
}

} // verus!
