//! Stable sorting by an integer rank.

use vstd::prelude::*;

verus! {

/// `s` with `x` put behind the last item whose rank is not above that of `x`.
pub open spec fn placed<A>(s: Seq<A>, rank: spec_fn(A) -> int, x: A) -> Seq<A>
    decreases s.len(),
{
    if s.len() == 0 || rank(s.last()) <= rank(x) {
        s.push(x)
    } else {
        placed(s.drop_last(), rank, x).push(s.last())
    }
}

/// `s` in the order of rising rank, items of one rank in the order they had.
pub open spec fn sorted_by<A>(s: Seq<A>, rank: spec_fn(A) -> int) -> Seq<A>
    decreases s.len(),
{
    if s.len() == 0 {
        s
    } else {
        placed(sorted_by(s.drop_last(), rank), rank, s.last())
    }
}

/// Ranks do not fall from one item to a later one.
pub open spec fn ascending<A>(s: Seq<A>, rank: spec_fn(A) -> int) -> bool {
    forall|i: int, j: int| 0 <= i <= j < s.len() ==> rank(#[trigger] s[i]) <= rank(#[trigger] s[j])
}

/// Having the rank `r`.
pub open spec fn has_rank<A>(rank: spec_fn(A) -> int, r: int) -> spec_fn(A) -> bool {
    |x: A| rank(x) == r
}

/// The items of one rank, in order.
pub open spec fn of_rank<A>(s: Seq<A>, rank: spec_fn(A) -> int, r: int) -> Seq<A> {
    s.filter(has_rank(rank, r))
}

proof fn lemma_filter_push<A>(s: Seq<A>, pred: spec_fn(A) -> bool, x: A)
    ensures
        s.push(x).filter(pred) == if pred(x) {
            s.filter(pred).push(x)
        } else {
            s.filter(pred)
        },
{
    reveal(Seq::filter);
    assert(s.push(x).drop_last() =~= s);
}

proof fn lemma_placed<A>(s: Seq<A>, rank: spec_fn(A) -> int, x: A, r: int)
    requires
        ascending(s, rank),
    ensures
        ascending(placed(s, rank, x), rank),
        placed(s, rank, x).to_multiset() == s.to_multiset().insert(x),
        of_rank(placed(s, rank, x), rank, r) == of_rank(s.push(x), rank, r),
        forall|i: int|
            0 <= i < placed(s, rank, x).len() ==> #[trigger] placed(s, rank, x)[i] == x
                || s.contains(placed(s, rank, x)[i]),
    decreases s.len(),
{
    broadcast use vstd::seq_lib::group_to_multiset_ensures;

    let out = placed(s, rank, x);
    if s.len() == 0 || rank(s.last()) <= rank(x) {
        assert forall|i: int, j: int| 0 <= i <= j < out.len() implies rank(#[trigger] out[i])
            <= rank(#[trigger] out[j]) by {
            if j == s.len() && i < j {
                assert(rank(s[i]) <= rank(s[s.len() - 1]));
            }
        }
        assert forall|i: int| 0 <= i < out.len() implies #[trigger] out[i] == x || s.contains(
            out[i],
        ) by {
            if i < s.len() {
                assert(out[i] == s[i]);
            }
        }
    } else {
        let rest = s.drop_last();
        let inner = placed(rest, rank, x);
        lemma_placed(rest, rank, x, r);
        assert forall|i: int, j: int| 0 <= i <= j < out.len() implies rank(#[trigger] out[i])
            <= rank(#[trigger] out[j]) by {
            if j == inner.len() && i < j {
                assert(out[i] == inner[i]);
                if inner[i] != x {
                    let k = choose|k: int| 0 <= k < rest.len() && rest[k] == inner[i];
                    assert(rank(s[k]) <= rank(s[s.len() - 1]));
                }
            } else if j < inner.len() {
                assert(rank(inner[i]) <= rank(inner[j]));
            }
        }
        assert forall|i: int| 0 <= i < out.len() implies #[trigger] out[i] == x || s.contains(
            out[i],
        ) by {
            if i < inner.len() {
                assert(out[i] == inner[i]);
                if inner[i] != x {
                    let k = choose|k: int| 0 <= k < rest.len() && rest[k] == inner[i];
                    assert(s[k] == inner[i]);
                }
            } else {
                assert(out[i] == s[s.len() - 1]);
            }
        }
        assert(s =~= rest.push(s.last()));
        assert(out.to_multiset() =~= s.to_multiset().insert(x));
        let pred = has_rank(rank, r);
        lemma_filter_push(inner, pred, s.last());
        lemma_filter_push(rest, pred, x);
        lemma_filter_push(s, pred, x);
        lemma_filter_push(rest, pred, s.last());
    }
}

/// A sorted sequence rises, holds the items that were there and no others, and
/// keeps the items of any one rank in the order that they had.
pub proof fn sorting_is_stable<A>(s: Seq<A>, rank: spec_fn(A) -> int, r: int)
    ensures
        ascending(sorted_by(s, rank), rank),
        sorted_by(s, rank).to_multiset() == s.to_multiset(),
        sorted_by(s, rank).len() == s.len(),
        of_rank(sorted_by(s, rank), rank, r) == of_rank(s, rank, r),
    decreases s.len(),
{
    broadcast use vstd::seq_lib::group_to_multiset_ensures;

    if s.len() > 0 {
        let rest = s.drop_last();
        sorting_is_stable(rest, rank, r);
        lemma_placed(sorted_by(rest, rank), rank, s.last(), r);
        assert(s =~= rest.push(s.last()));
        let pred = has_rank(rank, r);
        lemma_filter_push(rest, pred, s.last());
        lemma_filter_push(sorted_by(rest, rank), pred, s.last());
        assert(sorted_by(s, rank).to_multiset().len() == sorted_by(s, rank).len());
        assert(s.to_multiset().len() == s.len());
    }
}

/// Sorting what is sorted changes nothing.
pub proof fn sorting_twice_is_sorting_once<A>(s: Seq<A>, rank: spec_fn(A) -> int)
    ensures
        sorted_by(sorted_by(s, rank), rank) == sorted_by(s, rank),
{
    sorting_is_stable(s, rank, 0);
    lemma_ascending_is_fixed(sorted_by(s, rank), rank);
}

proof fn lemma_ascending_is_fixed<A>(s: Seq<A>, rank: spec_fn(A) -> int)
    requires
        ascending(s, rank),
    ensures
        sorted_by(s, rank) == s,
    decreases s.len(),
{
    if s.len() > 0 {
        let rest = s.drop_last();
        assert(ascending(rest, rank)) by {
            assert forall|i: int, j: int| 0 <= i <= j < rest.len() implies rank(#[trigger] rest[i])
                <= rank(#[trigger] rest[j]) by {
                assert(rank(s[i]) <= rank(s[j]));
            }
        }
        lemma_ascending_is_fixed(rest, rank);
        if rest.len() > 0 {
            assert(rank(s[rest.len() - 1]) <= rank(s[s.len() - 1]));
        }
        assert(rest.push(s.last()) =~= s);
    }
}

proof fn lemma_placed_at<A>(s: Seq<A>, rank: spec_fn(A) -> int, x: A, at: int)
    requires
        0 <= at <= s.len(),
        at == 0 || rank(s[at - 1]) <= rank(x),
        forall|i: int| at <= i < s.len() ==> rank(#[trigger] s[i]) > rank(x),
    ensures
        placed(s, rank, x) == s.insert(at, x),
    decreases s.len(),
{
    if at == s.len() {
        assert(s.push(x) =~= s.insert(at, x));
    } else {
        let rest = s.drop_last();
        assert forall|i: int| at <= i < rest.len() implies rank(#[trigger] rest[i]) > rank(x) by {
            assert(rest[i] == s[i]);
        }
        assert(rank(s[s.len() - 1]) > rank(x));
        lemma_placed_at(rest, rank, x, at);
        assert(rest.insert(at, x).push(s.last()) =~= s.insert(at, x));
    }
}

/// Sorts `items` by the rank that `keys` gives for each of them.
pub(crate) fn sort_by_keys<T: Copy>(
    items: &Vec<T>,
    keys: &Vec<i64>,
    Ghost(rank): Ghost<spec_fn(T) -> int>,
) -> (res: Vec<T>)
    requires
        keys@.len() == items@.len(),
        forall|i: int| 0 <= i < keys@.len() ==> #[trigger] keys@[i] == rank(items@[i]),
    ensures
        res@ == sorted_by(items@, rank),
{
    let mut out: Vec<T> = Vec::new();
    let mut out_keys: Vec<i64> = Vec::new();
    assert(items@.take(0) =~= Seq::<T>::empty());
    for n in 0..items.len()
        invariant
            keys@.len() == items@.len(),
            forall|i: int| 0 <= i < keys@.len() ==> #[trigger] keys@[i] == rank(items@[i]),
            out@ == sorted_by(items@.take(n as int), rank),
            out_keys@.len() == out@.len(),
            forall|i: int| 0 <= i < out_keys@.len() ==> #[trigger] out_keys@[i] == rank(out@[i]),
    {
        let key: i64 = keys[n];
        let item: T = items[n];
        let mut at: usize = out.len();
        while at > 0 && out_keys[at - 1] > key
            invariant
                0 <= at <= out@.len(),
                out_keys@.len() == out@.len(),
                key == rank(item),
                forall|i: int|
                    0 <= i < out_keys@.len() ==> #[trigger] out_keys@[i] == rank(out@[i]),
                forall|i: int| at <= i < out@.len() ==> rank(#[trigger] out@[i]) > rank(item),
            decreases at,
        {
            assert(out_keys@[at - 1] == rank(out@[at - 1]));
            at = at - 1;
        }
        proof {
            if at > 0 {
                assert(out_keys@[at - 1] == rank(out@[at - 1]));
            }
            lemma_placed_at(out@, rank, item, at as int);
            assert(items@.take(n + 1).drop_last() =~= items@.take(n as int));
        }
        out.insert(at, item);
        out_keys.insert(at, key);
    }
    assert(items@.take(items@.len() as int) =~= items@);
    out
}

} // verus!
