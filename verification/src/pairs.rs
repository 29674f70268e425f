//! The candidate merges: every unordered pair of points with the squared
//! distance of their colours, in ascending order.

use vstd::prelude::*;
use vstd::relations::{sorted_by, total_ordering};
use vstd::seq_lib::lemma_sorted_unique;
use crate::color::distance_sq;
use crate::point::ColorPoint;

verus! {

/// A candidate merge: the squared distance of two points, then the index of
/// the first and of the second.
pub type Pair = (u32, usize, usize);

/// The candidate for the points at `i` and `j`.
pub open spec fn pair_of(points: Seq<ColorPoint>, i: int, j: int) -> Pair {
    (distance_sq(points[i].color, points[j].color) as u32, i as usize, j as usize)
}

/// The candidates of the point at `i` with the points after it and before
/// `end`, in ascending order of the second index.
pub open spec fn row_pairs(points: Seq<ColorPoint>, i: int, end: int) -> Seq<Pair>
    decreases end - i,
{
    if end <= i + 1 {
        Seq::empty()
    } else {
        row_pairs(points, i, end - 1).push(pair_of(points, i, end - 1))
    }
}

/// The candidates whose first index is below `end`, row after row.
pub open spec fn pairs_before(points: Seq<ColorPoint>, end: int) -> Seq<Pair>
    decreases end,
{
    if end <= 0 {
        Seq::empty()
    } else {
        pairs_before(points, end - 1) + row_pairs(points, end - 1, points.len() as int)
    }
}

/// Every unordered pair of points once, ordered by first index and then by
/// second.
pub open spec fn all_pairs(points: Seq<ColorPoint>) -> Seq<Pair> {
    pairs_before(points, points.len() as int)
}

/// The order of the merge walk: by distance, then by first index, then by
/// second. Two candidates of equal distance keep the order in which
/// `all_pairs` lists them.
pub open spec fn pair_leq(p: Pair, q: Pair) -> bool {
    p.0 < q.0 || (p.0 == q.0 && (p.1 < q.1 || (p.1 == q.1 && p.2 <= q.2)))
}

/// `pair_leq` as a relation.
pub open spec fn pair_order() -> spec_fn(Pair, Pair) -> bool {
    |p: Pair, q: Pair| pair_leq(p, q)
}

/// The candidates in the order of the merge walk.
pub open spec fn sorted_pairs(points: Seq<ColorPoint>) -> Seq<Pair> {
    all_pairs(points).sort_by(pair_order())
}

/// A candidate of `points`: two indices in ascending order with the
/// distance of their colours.
pub open spec fn is_pair_of(points: Seq<ColorPoint>, p: Pair) -> bool {
    &&& p.1 < p.2 < points.len()
    &&& p == pair_of(points, p.1 as int, p.2 as int)
}

pub proof fn lemma_pair_order_total()
    ensures
        total_ordering(pair_order()),
{
    let r = pair_order();
    assert forall|x: Pair, y: Pair| #[trigger] r(x, y) && r(y, x) implies x == y by {
        assert(x.0 == y.0 && x.1 == y.1 && x.2 == y.2);
    }
    assert forall|x: Pair, y: Pair, z: Pair| #[trigger] r(x, y) && #[trigger] r(y, z) implies r(
        x,
        z,
    ) by {}
    assert forall|x: Pair, y: Pair| #[trigger] r(x, y) || #[trigger] r(y, x) by {}
    assert forall|x: Pair| #[trigger] r(x, x) by {}
}

proof fn lemma_row_pairs(points: Seq<ColorPoint>, i: int, end: int)
    requires
        0 <= i < end <= points.len() <= usize::MAX,
    ensures
        row_pairs(points, i, end).len() == end - i - 1,
        forall|k: int|
            0 <= k < end - i - 1 ==> #[trigger] row_pairs(points, i, end)[k] == pair_of(
                points,
                i,
                i + 1 + k,
            ),
    decreases end - i,
{
    if end > i + 1 {
        lemma_row_pairs(points, i, end - 1);
    }
}

proof fn lemma_pairs_before(points: Seq<ColorPoint>, end: int)
    requires
        0 <= end <= points.len() <= usize::MAX,
    ensures
        forall|k: int|
            0 <= k < pairs_before(points, end).len() ==> {
                let p = #[trigger] pairs_before(points, end)[k];
                is_pair_of(points, p) && p.1 < end
            },
        forall|i: int, j: int|
            0 <= i < end && i < j < points.len() ==> pairs_before(points, end).contains(
                #[trigger] pair_of(points, i, j),
            ),
    decreases end,
{
    if end > 0 {
        let n = points.len() as int;
        let head = pairs_before(points, end - 1);
        let row = row_pairs(points, end - 1, n);
        let whole = pairs_before(points, end);
        lemma_pairs_before(points, end - 1);
        lemma_row_pairs(points, end - 1, n);
        assert forall|k: int| 0 <= k < whole.len() implies {
            let p = #[trigger] whole[k];
            is_pair_of(points, p) && p.1 < end
        } by {
            if k < head.len() {
                assert(whole[k] == head[k]);
            } else {
                assert(whole[k] == row[k - head.len()]);
            }
        }
        assert forall|i: int, j: int| 0 <= i < end && i < j < points.len() implies whole.contains(
            #[trigger] pair_of(points, i, j),
        ) by {
            if i < end - 1 {
                assert(head.contains(pair_of(points, i, j)));
                let k = choose|k: int| 0 <= k < head.len() && head[k] == pair_of(points, i, j);
                assert(whole[k] == pair_of(points, i, j));
            } else {
                let k = j - i - 1;
                assert(row[k] == pair_of(points, i, j));
                assert(whole[head.len() + k] == pair_of(points, i, j));
            }
        }
    }
}

/// The sorted candidates are the candidates: each is a pair of `points`,
/// each pair of `points` is among them, and they ascend.
pub proof fn lemma_sorted_pairs(points: Seq<ColorPoint>)
    requires
        points.len() <= usize::MAX,
    ensures
        sorted_by(sorted_pairs(points), pair_order()),
        sorted_pairs(points).len() == all_pairs(points).len(),
        forall|k: int|
            0 <= k < sorted_pairs(points).len() ==> is_pair_of(
                points,
                #[trigger] sorted_pairs(points)[k],
            ),
        forall|i: int, j: int|
            0 <= i < j < points.len() ==> sorted_pairs(points).contains(
                #[trigger] pair_of(points, i, j),
            ),
{
    broadcast use vstd::seq_lib::group_to_multiset_ensures;

    let all = all_pairs(points);
    let sorted = sorted_pairs(points);
    lemma_pair_order_total();
    all.lemma_sort_by_ensures(pair_order());
    lemma_pairs_before(points, points.len() as int);
    assert(sorted.len() == sorted.to_multiset().len());
    assert(all.len() == all.to_multiset().len());
    assert forall|k: int| 0 <= k < sorted.len() implies is_pair_of(points, #[trigger] sorted[k]) by {
        let p = sorted[k];
        assert(sorted.contains(p));
        assert(all.contains(p));
        let at = choose|at: int| 0 <= at < all.len() && all[at] == p;
        assert(is_pair_of(points, all[at]));
    }
    assert forall|i: int, j: int| 0 <= i < j < points.len() implies sorted.contains(
        #[trigger] pair_of(points, i, j),
    ) by {
        let p = pair_of(points, i, j);
        assert(all.contains(p));
        assert(all.to_multiset().count(p) > 0);
        assert(sorted.to_multiset().count(p) > 0);
    }
}

/// Whether `p` comes before `q` in the order of the merge walk, or is `q`.
fn comes_first(p: Pair, q: Pair) -> (first: bool)
    ensures
        first == pair_leq(p, q),
{
    p.0 < q.0 || (p.0 == q.0 && (p.1 < q.1 || (p.1 == q.1 && p.2 <= q.2)))
}

/// Merges two ascending runs of candidates into one.
fn merge(left: &Vec<Pair>, right: &Vec<Pair>) -> (out: Vec<Pair>)
    requires
        sorted_by(left@, pair_order()),
        sorted_by(right@, pair_order()),
    ensures
        sorted_by(out@, pair_order()),
        out@.to_multiset() == left@.to_multiset().add(right@.to_multiset()),
{
    broadcast use vstd::seq_lib::group_to_multiset_ensures;
    broadcast use vstd::multiset::group_multiset_axioms;

    let mut out: Vec<Pair> = Vec::new();
    let mut i: usize = 0;
    let mut j: usize = 0;
    proof {
        lemma_pair_order_total();
        assert(left@.take(0) =~= Seq::<Pair>::empty());
        assert(right@.take(0) =~= Seq::<Pair>::empty());
        assert(out@.to_multiset() =~= left@.take(0).to_multiset().add(
            right@.take(0).to_multiset(),
        ));
    }
    while i < left.len() || j < right.len()
        invariant
            i <= left.len(),
            j <= right.len(),
            total_ordering(pair_order()),
            sorted_by(left@, pair_order()),
            sorted_by(right@, pair_order()),
            sorted_by(out@, pair_order()),
            out@.to_multiset() == left@.take(i as int).to_multiset().add(
                right@.take(j as int).to_multiset(),
            ),
            forall|k: int, a: int|
                0 <= k < out@.len() && i <= a < left@.len() ==> pair_leq(
                    #[trigger] out@[k],
                    #[trigger] left@[a],
                ),
            forall|k: int, b: int|
                0 <= k < out@.len() && j <= b < right@.len() ==> pair_leq(
                    #[trigger] out@[k],
                    #[trigger] right@[b],
                ),
        decreases left.len() - i + right.len() - j,
    {
        let ghost before = out@;
        let from_left = if i >= left.len() {
            false
        } else if j >= right.len() {
            true
        } else {
            comes_first(left[i], right[j])
        };
        if from_left {
            let x = left[i];
            out.push(x);
            proof {
                assert(left@.take(i + 1) =~= left@.take(i as int).push(x));
                assert(out@ =~= before.push(x));
                before.to_multiset_ensures();
                left@.take(i as int).to_multiset_ensures();
                assert(out@.to_multiset() =~= before.to_multiset().insert(x));
                assert(left@.take(i + 1).to_multiset() =~= left@.take(i as int).to_multiset().insert(
                    x,
                ));
                assert(out@.to_multiset() =~= left@.take(i + 1).to_multiset().add(
                    right@.take(j as int).to_multiset(),
                ));
                assert forall|k: int, a: int|
                    0 <= k < out@.len() && i + 1 <= a < left@.len() implies pair_leq(
                    #[trigger] out@[k],
                    #[trigger] left@[a],
                ) by {
                    if k == before.len() {
                        assert(pair_order()(left@[i as int], left@[a]));
                    }
                }
                assert forall|k: int, b: int|
                    0 <= k < out@.len() && j <= b < right@.len() implies pair_leq(
                    #[trigger] out@[k],
                    #[trigger] right@[b],
                ) by {
                    if k == before.len() {
                        assert(pair_leq(x, right@[j as int]));
                        if b > j {
                            assert(pair_order()(right@[j as int], right@[b]));
                        }
                    }
                }
                assert forall|k: int, l: int| 0 <= k < l < out@.len() implies pair_order()(
                    #[trigger] out@[k],
                    #[trigger] out@[l],
                ) by {
                    if l == before.len() {
                        assert(pair_leq(before[k], left@[i as int]));
                    } else {
                        assert(pair_order()(before[k], before[l]));
                    }
                }
            }
            i += 1;
        } else {
            let x = right[j];
            out.push(x);
            proof {
                assert(right@.take(j + 1) =~= right@.take(j as int).push(x));
                assert(out@ =~= before.push(x));
                before.to_multiset_ensures();
                right@.take(j as int).to_multiset_ensures();
                assert(out@.to_multiset() =~= before.to_multiset().insert(x));
                assert(right@.take(j + 1).to_multiset() =~= right@.take(
                    j as int,
                ).to_multiset().insert(x));
                assert(out@.to_multiset() =~= left@.take(i as int).to_multiset().add(
                    right@.take(j + 1).to_multiset(),
                ));
                assert forall|k: int, b: int|
                    0 <= k < out@.len() && j + 1 <= b < right@.len() implies pair_leq(
                    #[trigger] out@[k],
                    #[trigger] right@[b],
                ) by {
                    if k == before.len() {
                        assert(pair_order()(right@[j as int], right@[b]));
                    }
                }
                assert forall|k: int, a: int|
                    0 <= k < out@.len() && i <= a < left@.len() implies pair_leq(
                    #[trigger] out@[k],
                    #[trigger] left@[a],
                ) by {
                    if k == before.len() {
                        assert(pair_leq(x, left@[i as int]));
                        if a > i {
                            assert(pair_order()(left@[i as int], left@[a]));
                        }
                    }
                }
                assert forall|k: int, l: int| 0 <= k < l < out@.len() implies pair_order()(
                    #[trigger] out@[k],
                    #[trigger] out@[l],
                ) by {
                    if l == before.len() {
                        assert(pair_leq(before[k], right@[j as int]));
                    } else {
                        assert(pair_order()(before[k], before[l]));
                    }
                }
            }
            j += 1;
        }
    }
    proof {
        assert(left@.take(i as int) =~= left@);
        assert(right@.take(j as int) =~= right@);
    }
    out
}

/// The candidates from `low` up to `high` in ascending order, by merging
/// the two sorted halves.
fn merge_sort(pairs: &Vec<Pair>, low: usize, high: usize) -> (out: Vec<Pair>)
    requires
        low <= high <= pairs.len(),
    ensures
        sorted_by(out@, pair_order()),
        out@.to_multiset() == pairs@.subrange(low as int, high as int).to_multiset(),
    decreases high - low,
{
    broadcast use vstd::seq_lib::group_to_multiset_ensures;

    if high - low <= 1 {
        let mut out: Vec<Pair> = Vec::new();
        if high > low {
            out.push(pairs[low]);
        }
        assert(out@ =~= pairs@.subrange(low as int, high as int));
        out
    } else {
        let middle = low + (high - low) / 2;
        let left = merge_sort(pairs, low, middle);
        let right = merge_sort(pairs, middle, high);
        proof {
            let first = pairs@.subrange(low as int, middle as int);
            let second = pairs@.subrange(middle as int, high as int);
            assert(pairs@.subrange(low as int, high as int) =~= first + second);
            vstd::seq_lib::lemma_multiset_commutative(first, second);
        }
        merge(&left, &right)
    }
}

/// The candidates of `points` in the order of the merge walk.
pub fn build_sorted_pairs(points: &Vec<ColorPoint>) -> (pairs: Vec<Pair>)
    ensures
        pairs@ == sorted_pairs(points@),
{
    let n = points.len();
    let mut pairs: Vec<Pair> = Vec::new();
    let mut i: usize = 0;
    while i < n
        invariant
            n == points.len(),
            i <= n,
            pairs@ == pairs_before(points@, i as int),
        decreases n - i,
    {
        let ghost head = pairs@;
        let mut j: usize = i + 1;
        while j < n
            invariant
                n == points.len(),
                i < n,
                i < j <= n,
                pairs@ == head + row_pairs(points@, i as int, j as int),
            decreases n - j,
        {
            let d = points[i].color.distance_sq(&points[j].color);
            pairs.push((d, i, j));
            proof {
                assert(pairs@ =~= head + row_pairs(points@, i as int, j + 1));
            }
            j += 1;
        }
        proof {
            assert(row_pairs(points@, i as int, n as int) == row_pairs(
                points@,
                i as int,
                j as int,
            )) by {
                if j != n {
                    assert(j == i + 1 && j > n);
                }
            }
        }
        i += 1;
    }
    let sorted = merge_sort(&pairs, 0, pairs.len());
    proof {
        assert(pairs@.subrange(0, pairs@.len() as int) =~= pairs@);
        lemma_pair_order_total();
        pairs@.lemma_sort_by_ensures(pair_order());
        lemma_sorted_unique(sorted@, pairs@.sort_by(pair_order()), pair_order());
    }
    sorted
}

} // verus!
