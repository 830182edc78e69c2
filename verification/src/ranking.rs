//! Stable ranking: the items with the largest keys first, and items with one
//! key in the order in which they came.

use vstd::prelude::*;

use crate::decimal::Decimal;
use crate::indicators::values;

verus! {

/// The first place at or after `p` in the ranking `r` whose key is not above
/// `x`.
pub open spec fn place(keys: Seq<int>, r: Seq<int>, x: int, p: int) -> int
    decreases r.len() - p,
{
    if p >= r.len() || keys[r[p]] <= x {
        p
    } else {
        place(keys, r, x, p + 1)
    }
}

/// The ranking of the items from `i` on, by their indices.
pub open spec fn ranking_from(keys: Seq<int>, i: int) -> Seq<int>
    decreases keys.len() - i,
{
    if i >= keys.len() {
        seq![]
    } else {
        let r = ranking_from(keys, i + 1);
        r.insert(place(keys, r, keys[i], 0), i)
    }
}

/// The indices of the items, those with the largest keys first.
pub open spec fn ranking(keys: Seq<int>) -> Seq<int> {
    ranking_from(keys, 0)
}

/// The items in the order of their ranking.
pub open spec fn ranked<T>(items: Seq<T>, keys: Seq<int>) -> Seq<T> {
    ranking(keys).map_values(|i: int| items[i])
}

/// Does `a` come before `b` in a ranking?
pub open spec fn outranks(keys: Seq<int>, a: int, b: int) -> bool {
    keys[a] > keys[b] || (keys[a] == keys[b] && a < b)
}

proof fn lemma_place(keys: Seq<int>, r: Seq<int>, x: int, p: int)
    requires
        0 <= p <= r.len(),
    ensures
        p <= place(keys, r, x, p) <= r.len(),
        forall|q: int| p <= q < place(keys, r, x, p) ==> keys[#[trigger] r[q]] > x,
        place(keys, r, x, p) < r.len() ==> keys[r[place(keys, r, x, p)]] <= x,
    decreases r.len() - p,
{
    if p < r.len() && keys[r[p]] > x {
        lemma_place(keys, r, x, p + 1);
    }
}

proof fn lemma_ranking_from(keys: Seq<int>, i: int)
    requires
        0 <= i <= keys.len(),
    ensures
        ranking_from(keys, i).len() == keys.len() - i,
        forall|a: int|
            0 <= a < keys.len() - i ==> i <= #[trigger] ranking_from(keys, i)[a] < keys.len(),
        forall|a: int, b: int|
            0 <= a < b < keys.len() - i ==> #[trigger] outranks(
                keys,
                ranking_from(keys, i)[a],
                ranking_from(keys, i)[b],
            ),
        forall|j: int|
            i <= j < keys.len() ==> #[trigger] ranking_from(keys, i).contains(j),
    decreases keys.len() - i,
{
    if i < keys.len() {
        lemma_ranking_from(keys, i + 1);
        let r = ranking_from(keys, i + 1);
        let p = place(keys, r, keys[i], 0);
        lemma_place(keys, r, keys[i], 0);
        let s = r.insert(p, i);
        assert forall|a: int, b: int| 0 <= a < b < s.len() implies #[trigger] outranks(
            keys,
            s[a],
            s[b],
        ) by {
            if b < p {
                assert(outranks(keys, r[a], r[b]));
            } else if a < p && b > p {
                assert(outranks(keys, r[a], r[b - 1]));
            } else if a > p {
                assert(outranks(keys, r[a - 1], r[b - 1]));
            } else if a == p {
                assert(keys[r[p]] <= keys[i]);
                if b - 1 > p {
                    assert(outranks(keys, r[p], r[b - 1]));
                }
            }
        }
        assert forall|j: int| i <= j < keys.len() implies #[trigger] s.contains(j) by {
            if j == i {
                assert(s[p] == i);
            } else {
                assert(r.contains(j));
                let a = choose|a: int| 0 <= a < r.len() && r[a] == j;
                if a < p {
                    assert(s[a] == j);
                } else {
                    assert(s[a + 1] == j);
                }
            }
        }
    }
}

/// A ranking holds every item once.  An item comes before another where its
/// key is larger, or where the keys are the same and it came first.
pub proof fn ranking_is_stable_and_complete(keys: Seq<int>)
    ensures
        ranking(keys).len() == keys.len(),
        forall|a: int| 0 <= a < keys.len() ==> 0 <= #[trigger] ranking(keys)[a] < keys.len(),
        forall|a: int, b: int|
            0 <= a < b < keys.len() ==> #[trigger] outranks(
                keys,
                ranking(keys)[a],
                ranking(keys)[b],
            ),
        forall|j: int| 0 <= j < keys.len() ==> #[trigger] ranking(keys).contains(j),
{
    lemma_ranking_from(keys, 0);
}

/// The ranking from `i` on of keys whose last ones, from `from` on, are in order
/// and the smallest: these stay in their places.
proof fn lemma_tail_stays(keys: Seq<int>, from: int, i: int)
    requires
        0 <= i <= keys.len(),
        0 <= from <= keys.len(),
        forall|x: int, y: int|
            0 <= x < y < keys.len() && from <= y ==> #[trigger] keys[x] >= #[trigger] keys[y],
    ensures
        ranking_from(keys, i).len() == keys.len() - i,
        forall|p: int|
            from <= p < keys.len() && i <= p ==> #[trigger] ranking_from(keys, i)[p - i] == p,
    decreases keys.len() - i,
{
    if i < keys.len() {
        lemma_tail_stays(keys, from, i + 1);
        let r = ranking_from(keys, i + 1);
        let at = place(keys, r, keys[i], 0);
        lemma_place(keys, r, keys[i], 0);
        let s = ranking_from(keys, i);
        assert(s == r.insert(at, i));
        // The new index comes before all that stay.
        let first = if from > i {
            from
        } else {
            i + 1
        };
        if first < keys.len() {
            assert(r[first - (i + 1)] == first);
            assert(keys[i] >= keys[first]);
            if at > first - (i + 1) {
                assert(keys[r[first - (i + 1)]] > keys[i]);
            }
        }
        assert forall|p: int| from <= p < keys.len() && i <= p implies #[trigger] s[p - i] == p by {
            if p > i {
                assert(r[p - (i + 1)] == p);
                assert(at <= p - (i + 1));
            }
        }
    }
}

/// Items at the end whose keys are in order and no larger than any before them
/// stay where they are.
pub proof fn the_smallest_stay_last(keys: Seq<int>, from: int)
    requires
        0 <= from <= keys.len(),
        forall|x: int, y: int|
            0 <= x < y < keys.len() && from <= y ==> #[trigger] keys[x] >= #[trigger] keys[y],
    ensures
        forall|p: int| from <= p < keys.len() ==> #[trigger] ranking(keys)[p] == p,
{
    lemma_tail_stays(keys, from, 0);
    assert forall|p: int| from <= p < keys.len() implies #[trigger] ranking(keys)[p] == p by {
        assert(ranking_from(keys, 0)[p - 0] == p);
    }
}

/// Ranks items by their keys.
pub fn rank<T>(items: Vec<T>, keys: Vec<Decimal>) -> (r: Vec<T>)
    requires
        items@.len() == keys@.len(),
    ensures
        r@ == ranked(items@, values(keys@)),
{
    let ghost all = items@;
    let ghost ks = values(keys@);
    let mut items = items;
    let mut keys = keys;
    let mut out: Vec<T> = Vec::new();
    let mut sorted: Vec<Decimal> = Vec::new();
    let mut n: usize = items.len();
    while n > 0
        invariant
            n <= all.len() == ks.len(),
            items@ == all.subrange(0, n as int),
            keys@.len() == n,
            forall|j: int| 0 <= j < n ==> (#[trigger] keys@[j])@ == ks[j],
            out@.len() == sorted@.len() == ks.len() - n,
            ranking_from(ks, n as int).len() == out@.len(),
            forall|j: int|
                0 <= j < out@.len() ==> #[trigger] out@[j] == all[ranking_from(ks, n as int)[j]],
            forall|j: int|
                0 <= j < out@.len() ==> (#[trigger] sorted@[j])@ == ks[ranking_from(
                    ks,
                    n as int,
                )[j]],
        decreases n,
    {
        let ghost r = ranking_from(ks, n as int);
        let i: usize = n - 1;
        proof {
            lemma_place(ks, r, ks[i as int], 0);
        }
        let x = keys.pop();
        let item = items.pop();
        match (x, item) {
            (Some(x), Some(item)) => {
                assert(x@ == ks[i as int]);
                assert(item == all[i as int]);
                let mut p: usize = 0;
                while p < sorted.len() && x.less(sorted[p])
                    invariant
                        p <= sorted@.len() == r.len(),
                        x@ == ks[i as int],
                        forall|j: int| 0 <= j < sorted@.len() ==> (#[trigger] sorted@[j])@
                            == ks[r[j]],
                        place(ks, r, ks[i as int], 0) == place(ks, r, ks[i as int], p as int),
                    decreases sorted@.len() - p,
                {
                    p = p + 1;
                }
                assert(place(ks, r, ks[i as int], 0) == p);
                out.insert(p, item);
                sorted.insert(p, x);
            },
            _ => {},
        }
        assert(items@ =~= all.subrange(0, i as int));
        n = i;
    }
    assert(out@ =~= ranked(all, ks));
    out
}

} // verus!
