//! Newest-first ordering of records by an optional instant.
//!
//! Listings and retention rank records by a time that may be absent. The
//! ranking is total: a later instant comes first, an absent instant comes
//! after every present one, and records with equal instants keep the order
//! in which they were given. `newest_first` computes the ranking as a
//! sequence of indices; `newest_first_order` is the same ranking as a
//! mathematical value.

use vstd::prelude::*;
use vstd::set_lib::*;
use crate::time::Timestamp;

verus! {

/// `a` is strictly more recent than `b`. An absent instant is older than
/// every present one.
pub open spec fn newer(a: Option<Timestamp>, b: Option<Timestamp>) -> bool {
    match a {
        Some(x) => match b {
            Some(y) => y.before(x),
            None => true,
        },
        None => false,
    }
}

/// Whether `a` is strictly more recent than `b`.
pub fn is_newer(a: &Option<Timestamp>, b: &Option<Timestamp>) -> (r: bool)
    ensures
        r == newer(*a, *b),
{
    match a {
        Some(x) => match b {
            Some(y) => y.is_before(x),
            None => true,
        },
        None => false,
    }
}

/// In a newest-first listing of `keys`, index `i` stands before index `j`:
/// its instant is more recent, or the two are equal and `i` is the smaller.
pub open spec fn precedes(keys: Seq<Option<Timestamp>>, i: int, j: int) -> bool {
    newer(keys[i], keys[j]) || (keys[i] == keys[j] && i < j)
}

/// Every element of `order` is an index in `lo..hi`.
pub open spec fn within(order: Seq<usize>, lo: int, hi: int) -> bool {
    forall|a: int| 0 <= a < order.len() ==> lo <= #[trigger] order[a] < hi
}

/// Each index in `order` precedes all that follow it.
pub open spec fn ranked(keys: Seq<Option<Timestamp>>, order: Seq<usize>) -> bool {
    forall|a: int, b: int|
        0 <= a < b < order.len() ==> precedes(
            keys,
            #[trigger] order[a] as int,
            #[trigger] order[b] as int,
        )
}

/// `order` lists the indices of `keys`, each once, newest first.
pub open spec fn is_newest_first(keys: Seq<Option<Timestamp>>, order: Seq<usize>) -> bool {
    &&& order.len() == keys.len()
    &&& within(order, 0, keys.len() as int)
    &&& ranked(keys, order)
}

/// The newest-first ranking of `keys`. There is exactly one
/// (`lemma_newest_first_exists`, `lemma_newest_first_unique`).
pub open spec fn newest_first_order(keys: Seq<Option<Timestamp>>) -> Seq<usize> {
    choose|order: Seq<usize>| is_newest_first(keys, order)
}

/// `items` in the ranking of `keys`, cut off after `limit` entries.
pub open spec fn listed<T>(items: Seq<T>, keys: Seq<Option<Timestamp>>, limit: int) -> Seq<T> {
    let order = newest_first_order(keys);
    let shown = if limit < items.len() { limit } else { items.len() as int };
    Seq::new(shown as nat, |r: int| items[order[r] as int])
}

/// Precedence is transitive.
pub proof fn lemma_precedes_transitive(keys: Seq<Option<Timestamp>>, i: int, j: int, k: int)
    requires
        precedes(keys, i, j),
        precedes(keys, j, k),
    ensures
        precedes(keys, i, k),
{
}

/// Of two different indices exactly one precedes the other.
pub proof fn lemma_precedes_total(keys: Seq<Option<Timestamp>>, i: int, j: int)
    ensures
        i != j ==> (precedes(keys, i, j) <==> !precedes(keys, j, i)),
        !precedes(keys, i, i),
{
}

/// A newest-first ranking names no index twice.
pub proof fn lemma_newest_first_distinct(keys: Seq<Option<Timestamp>>, order: Seq<usize>)
    requires
        is_newest_first(keys, order),
    ensures
        order.no_duplicates(),
{
    assert forall|a: int, b: int|
        0 <= a < order.len() && 0 <= b < order.len() && a != b implies order[a] != order[b] by {
        if a < b {
            assert(precedes(keys, order[a] as int, order[b] as int));
        } else {
            assert(precedes(keys, order[b] as int, order[a] as int));
        }
    }
}

/// A newest-first ranking names every index.
pub proof fn lemma_newest_first_covers(keys: Seq<Option<Timestamp>>, order: Seq<usize>, i: int)
    requires
        is_newest_first(keys, order),
        0 <= i < keys.len(),
    ensures
        exists|a: int| 0 <= a < order.len() && order[a] == i,
{
    let n = keys.len() as int;
    let ints = Seq::new(order.len(), |a: int| order[a] as int);
    lemma_newest_first_distinct(keys, order);
    assert(ints.no_duplicates());
    ints.unique_seq_to_set();
    ints.lemma_cardinality_of_set();
    lemma_int_range(0, n);
    assert(ints.to_set().subset_of(set_int_range(0, n))) by {
        assert forall|x: int| ints.to_set().contains(x) implies set_int_range(0, n).contains(
            x,
        ) by {
            let a = choose|a: int| 0 <= a < ints.len() && ints[a] == x;
            assert(ints[a] == order[a]);
        }
    }
    vstd::seq_lib::seq_to_set_is_finite(ints);
    lemma_subset_equality(ints.to_set(), set_int_range(0, n));
    assert(set_int_range(0, n).contains(i));
    assert(ints.to_set().contains(i));
    let a = choose|a: int| 0 <= a < ints.len() && ints[a] == i;
    assert(order[a] == i);
}

/// Two newest-first rankings of the same keys agree up to position `upto`.
proof fn lemma_rankings_agree(
    keys: Seq<Option<Timestamp>>,
    p: Seq<usize>,
    q: Seq<usize>,
    upto: int,
)
    requires
        is_newest_first(keys, p),
        is_newest_first(keys, q),
        0 <= upto <= keys.len(),
    ensures
        forall|a: int| 0 <= a < upto ==> p[a] == q[a],
    decreases upto,
{
    if upto > 0 {
        let a = upto - 1;
        lemma_rankings_agree(keys, p, q, a);
        let x = q[a] as int;
        let y = p[a] as int;
        if x != y {
            lemma_newest_first_distinct(keys, p);
            lemma_newest_first_distinct(keys, q);
            lemma_newest_first_covers(keys, p, x);
            lemma_newest_first_covers(keys, q, y);
            let a1 = choose|a1: int| 0 <= a1 < p.len() && p[a1] == x;
            let b1 = choose|b1: int| 0 <= b1 < q.len() && q[b1] == y;
            if a1 < a {
                assert(q[a1] == p[a1]);
                assert(false);
            }
            if b1 < a {
                assert(p[b1] == q[b1]);
                assert(false);
            }
            assert(a < a1 && a < b1);
            assert(precedes(keys, p[a] as int, p[a1] as int));
            assert(precedes(keys, q[a] as int, q[b1] as int));
            lemma_precedes_total(keys, x, y);
        }
    }
}

/// There is at most one newest-first ranking of given keys.
pub proof fn lemma_newest_first_unique(keys: Seq<Option<Timestamp>>, p: Seq<usize>, q: Seq<usize>)
    requires
        is_newest_first(keys, p),
        is_newest_first(keys, q),
    ensures
        p == q,
{
    lemma_rankings_agree(keys, p, q, keys.len() as int);
    assert(p =~= q);
}

/// Along the ranking the instants never get more recent: the listing is
/// sorted non-increasing by its keys.
pub proof fn lemma_newest_first_sorted(keys: Seq<Option<Timestamp>>, a: int, b: int)
    requires
        0 <= a <= b < keys.len() <= usize::MAX,
    ensures
        !newer(
            keys[newest_first_order(keys)[b] as int],
            keys[newest_first_order(keys)[a] as int],
        ),
{
    lemma_newest_first_exists(keys);
    let order = newest_first_order(keys);
    if a < b {
        assert(precedes(keys, order[a] as int, order[b] as int));
    }
}

/// Every index in `left` precedes every index of `rest` from `from` on.
spec fn all_precede(
    keys: Seq<Option<Timestamp>>,
    left: Seq<usize>,
    rest: Seq<usize>,
    from: int,
) -> bool {
    forall|c: int, a: int|
        0 <= c < left.len() && from <= a < rest.len() ==> precedes(
            keys,
            #[trigger] left[c] as int,
            #[trigger] rest[a] as int,
        )
}

/// Merges two ranked runs of indices, the first drawn from `lo..mid` and the
/// second from `mid..hi`, into one ranked run.
fn merge(
    keys: &Vec<Option<Timestamp>>,
    left: &Vec<usize>,
    right: &Vec<usize>,
    Ghost(lo): Ghost<int>,
    Ghost(mid): Ghost<int>,
    Ghost(hi): Ghost<int>,
) -> (out: Vec<usize>)
    requires
        0 <= lo <= mid <= hi <= keys.len(),
        left.len() == mid - lo,
        right.len() == hi - mid,
        within(left@, lo, mid),
        within(right@, mid, hi),
        ranked(keys@, left@),
        ranked(keys@, right@),
    ensures
        out.len() == hi - lo,
        within(out@, lo, hi),
        ranked(keys@, out@),
{
    let mut out: Vec<usize> = Vec::with_capacity(left.len() + right.len());
    let mut i: usize = 0;
    let mut j: usize = 0;
    while i < left.len() || j < right.len()
        invariant
            0 <= lo <= mid <= hi <= keys.len(),
            left.len() == mid - lo,
            right.len() == hi - mid,
            within(left@, lo, mid),
            within(right@, mid, hi),
            ranked(keys@, left@),
            ranked(keys@, right@),
            i <= left.len(),
            j <= right.len(),
            out.len() == i + j,
            within(out@, lo, hi),
            ranked(keys@, out@),
            all_precede(keys@, out@, left@, i as int),
            all_precede(keys@, out@, right@, j as int),
        decreases left.len() - i + right.len() - j,
    {
        let from_left = if i >= left.len() {
            false
        } else if j >= right.len() {
            true
        } else {
            !is_newer(&keys[right[j]], &keys[left[i]])
        };
        let ghost before = out@;
        if from_left {
            let x = left[i];
            proof {
                assert forall|b: int| j <= b < right.len() implies precedes(
                    keys@,
                    x as int,
                    #[trigger] right[b] as int,
                ) by {
                    assert(precedes(keys@, x as int, right[j as int] as int));
                    if b > j {
                        assert(precedes(keys@, right[j as int] as int, right[b] as int));
                        lemma_precedes_transitive(
                            keys@,
                            x as int,
                            right[j as int] as int,
                            right[b] as int,
                        );
                    }
                }
            }
            out.push(x);
            i += 1;
        } else {
            let y = right[j];
            proof {
                assert forall|a: int| i <= a < left.len() implies precedes(
                    keys@,
                    y as int,
                    #[trigger] left[a] as int,
                ) by {
                    assert(precedes(keys@, y as int, left[i as int] as int));
                    if a > i {
                        assert(precedes(keys@, left[i as int] as int, left[a] as int));
                        lemma_precedes_transitive(
                            keys@,
                            y as int,
                            left[i as int] as int,
                            left[a] as int,
                        );
                    }
                }
            }
            out.push(y);
            j += 1;
        }
        proof {
            assert(forall|c: int| 0 <= c < before.len() ==> out@[c] == before[c]);
        }
    }
    out
}

/// Ranks the indices `lo..hi` of `keys`, newest first.
fn rank_range(keys: &Vec<Option<Timestamp>>, lo: usize, hi: usize) -> (out: Vec<usize>)
    requires
        lo <= hi <= keys.len(),
    ensures
        out.len() == hi - lo,
        within(out@, lo as int, hi as int),
        ranked(keys@, out@),
    decreases hi - lo,
{
    if hi - lo <= 1 {
        let mut out: Vec<usize> = Vec::new();
        if hi - lo == 1 {
            out.push(lo);
        }
        out
    } else {
        let mid = lo + (hi - lo) / 2;
        let left = rank_range(keys, lo, mid);
        let right = rank_range(keys, mid, hi);
        merge(keys, &left, &right, Ghost(lo as int), Ghost(mid as int), Ghost(hi as int))
    }
}

/// The indices of `keys` in newest-first order: a later instant first, an
/// absent instant last, equal instants in the order given.
pub fn newest_first(keys: &Vec<Option<Timestamp>>) -> (order: Vec<usize>)
    ensures
        is_newest_first(keys@, order@),
        order@ == newest_first_order(keys@),
{
    let order = rank_range(keys, 0, keys.len());
    proof {
        lemma_newest_first_exists(keys@);
        lemma_newest_first_unique(keys@, order@, newest_first_order(keys@));
    }
    order
}

/// Every sequence of keys that a machine can index has a newest-first
/// ranking.
pub proof fn lemma_newest_first_exists(keys: Seq<Option<Timestamp>>)
    requires
        keys.len() <= usize::MAX,
    ensures
        is_newest_first(keys, newest_first_order(keys)),
    decreases keys.len(),
{
    if keys.len() == 0 {
        assert(is_newest_first(keys, Seq::<usize>::empty()));
    } else {
        let n = (keys.len() - 1) as int;
        let front = keys.drop_last();
        lemma_newest_first_exists(front);
        let sub = newest_first_order(front);
        // The last index goes behind every index whose instant is not older.
        let at = count_not_older(front, sub, keys[n], sub.len() as int);
        lemma_count_not_older(front, sub, keys[n], sub.len() as int);
        let order = Seq::new(
            keys.len(),
            |r: int|
                if r < at {
                    sub[r]
                } else if r == at {
                    n as usize
                } else {
                    sub[r - 1]
                },
        );
        assert(within(order, 0, keys.len() as int)) by {
            assert forall|a: int| 0 <= a < order.len() implies 0 <= #[trigger] order[a]
                < keys.len() by {
                if a < at {
                    assert(sub[a] < front.len());
                } else if a > at {
                    assert(sub[a - 1] < front.len());
                }
            }
        }
        assert(ranked(keys, order)) by {
            assert forall|a: int, b: int| 0 <= a < b < order.len() implies precedes(
                keys,
                #[trigger] order[a] as int,
                #[trigger] order[b] as int,
            ) by {
                if b < at {
                    assert(precedes(front, sub[a] as int, sub[b] as int));
                } else if b == at {
                    assert(!newer(keys[n], front[sub[a] as int]));
                    assert(sub[a] < front.len());
                } else if a < at {
                    assert(precedes(front, sub[a] as int, sub[b - 1] as int));
                } else if a == at {
                    assert(newer(keys[n], front[sub[b - 1] as int]));
                    assert(sub[b - 1] < front.len());
                } else {
                    assert(precedes(front, sub[a - 1] as int, sub[b - 1] as int));
                }
            }
        }
        assert(is_newest_first(keys, order));
    }
}

/// How many of the first `upto` entries of a ranking are not older than
/// `key`.
spec fn count_not_older(
    keys: Seq<Option<Timestamp>>,
    order: Seq<usize>,
    key: Option<Timestamp>,
    upto: int,
) -> int
    decreases upto,
{
    if upto <= 0 {
        0
    } else if newer(key, keys[order[upto - 1] as int]) {
        count_not_older(keys, order, key, upto - 1)
    } else {
        upto
    }
}

/// In a ranking, the entries not older than `key` are exactly a prefix, and
/// `count_not_older` is its length.
proof fn lemma_count_not_older(
    keys: Seq<Option<Timestamp>>,
    order: Seq<usize>,
    key: Option<Timestamp>,
    upto: int,
)
    requires
        is_newest_first(keys, order),
        0 <= upto <= order.len(),
    ensures
        0 <= count_not_older(keys, order, key, upto) <= upto,
        forall|a: int|
            0 <= a < count_not_older(keys, order, key, upto) ==> !newer(
                key,
                keys[#[trigger] order[a] as int],
            ),
        forall|a: int|
            count_not_older(keys, order, key, upto) <= a < upto ==> newer(
                key,
                keys[#[trigger] order[a] as int],
            ),
    decreases upto,
{
    if upto > 0 {
        if newer(key, keys[order[upto - 1] as int]) {
            lemma_count_not_older(keys, order, key, upto - 1);
        } else {
            assert forall|a: int| 0 <= a < upto implies !newer(
                key,
                keys[#[trigger] order[a] as int],
            ) by {
                if a < upto - 1 {
                    assert(precedes(keys, order[a] as int, order[upto - 1] as int));
                }
            }
        }
    }
}

} // verus!
