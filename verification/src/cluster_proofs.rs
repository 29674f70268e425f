//! What holds of every reduction.

use vstd::prelude::*;
use crate::average::{lemma_mean_of_equal, mean_of};
use crate::cluster::{
    blues, cluster_mean, clusters, greens, member_sum, recolor, reduced, reduced_point, reds, walk,
};
use crate::color::{lemma_distance_sq, same_rgb, Rgba};
use crate::pairs::{is_pair_of, lemma_sorted_pairs, pair_of, pair_order, sorted_pairs, Pair};
use crate::partition::{
    cluster_size, count_members, count_roots, is_partition, join, lemma_join, lemma_single_cluster,
    lemma_singletons, live_count, singletons,
};
use crate::point::ColorPoint;

verus! {

/// Both indices of every candidate lie below `n`.
pub open spec fn pairs_within(pairs: Seq<Pair>, n: nat) -> bool {
    forall|at: int| 0 <= at < pairs.len() ==> (#[trigger] pairs[at]).1 < n && pairs[at].2 < n
}

/// What the merge walk keeps and what it reaches: the labels stay a
/// partition, points that shared a cluster still do, no more clusters are
/// merged than the target asks for, and at the end either few enough are
/// left or every candidate that was walked joins two points of one
/// cluster.
pub proof fn lemma_walk(labels: Seq<int>, pairs: Seq<Pair>, k: int, target: nat)
    requires
        is_partition(labels),
        pairs_within(pairs, labels.len()),
        0 <= k <= pairs.len(),
    ensures
        is_partition(walk(labels, pairs, k, target)),
        walk(labels, pairs, k, target).len() == labels.len(),
        forall|x: int, y: int|
            0 <= x < labels.len() && 0 <= y < labels.len() && labels[x] == labels[y] ==> walk(
                labels,
                pairs,
                k,
                target,
            )[x] == walk(labels, pairs, k, target)[y],
        live_count(walk(labels, pairs, k, target)) <= live_count(labels),
        live_count(labels) >= target ==> live_count(walk(labels, pairs, k, target)) >= target,
        live_count(walk(labels, pairs, k, target)) <= target || forall|at: int|
            k <= at < pairs.len() ==> walk(labels, pairs, k, target)[(#[trigger] pairs[at]).1 as int]
                == walk(labels, pairs, k, target)[pairs[at].2 as int],
    decreases pairs.len() - k,
{
    if k >= pairs.len() || live_count(labels) <= target {
    } else {
        let i = pairs[k].1 as int;
        let j = pairs[k].2 as int;
        let next = join(labels, i, j);
        lemma_join(labels, i, j);
        lemma_walk(next, pairs, k + 1, target);
        let out = walk(labels, pairs, k, target);
        assert(out == walk(next, pairs, k + 1, target));
        if live_count(out) > target {
            assert forall|at: int| k <= at < pairs.len() implies out[(#[trigger] pairs[at]).1 as int]
                == out[pairs[at].2 as int] by {
                if at == k {
                    assert(next[i] == next[j]);
                }
            }
        }
    }
}

/// The total of the first `n` of `values`.
pub open spec fn total(values: Seq<int>, n: int) -> int
    decreases n,
{
    if n <= 0 {
        0
    } else {
        total(values, n - 1) + values[n - 1]
    }
}

/// The mean colour of all points: for each of red, green and blue the
/// total over the points divided by their number, rounded down. It is
/// opaque.
pub open spec fn global_mean(points: Seq<ColorPoint>) -> Rgba {
    let n = points.len() as int;
    mean_of(total(reds(points), n), total(greens(points), n), total(blues(points), n), n)
}

proof fn lemma_one_cluster_sums(values: Seq<int>, labels: Seq<int>, n: int)
    requires
        0 <= n <= labels.len(),
        forall|k: int| 0 <= k < labels.len() ==> #[trigger] labels[k] == 0,
    ensures
        member_sum(values, labels, 0, n) == total(values, n),
        count_members(labels, 0, n) == n,
    decreases n,
{
    if n > 0 {
        lemma_one_cluster_sums(values, labels, n - 1);
    }
}

/// Reduced to one colour, every point keeps its place and shows red,
/// green and blue of the mean colour of all points. Two points or more
/// show that colour itself, which is opaque; a single point stays as it
/// is.
pub proof fn lemma_reduce_to_one(points: Seq<ColorPoint>)
    requires
        1 <= points.len() <= usize::MAX,
    ensures
        reduced(points, 1).len() == points.len(),
        forall|k: int|
            0 <= k < points.len() ==> {
                let p = #[trigger] reduced(points, 1)[k];
                &&& p.x == points[k].x
                &&& p.y == points[k].y
                &&& same_rgb(p.color, global_mean(points))
                &&& points.len() >= 2 ==> p.color == global_mean(points)
                &&& points.len() == 1 ==> p == points[k]
            },
{
    let n = points.len() as int;
    if n == 1 {
        let own = points[0].color;
        assert(total(reds(points), 0) == 0);
        assert(total(greens(points), 0) == 0);
        assert(total(blues(points), 0) == 0);
        assert(total(reds(points), 1) == own.r);
        assert(total(greens(points), 1) == own.g);
        assert(total(blues(points), 1) == own.b);
        lemma_mean_of_equal(own.r as int, 1);
        lemma_mean_of_equal(own.g as int, 1);
        lemma_mean_of_equal(own.b as int, 1);
        assert(global_mean(points) == (Rgba { r: own.r, g: own.g, b: own.b, a: 255 }));
    } else {
        let labels = clusters(points, 1);
        lemma_clusters_count(points, 1);
        lemma_single_cluster(labels);
        lemma_one_cluster_sums(reds(points), labels, n);
        lemma_one_cluster_sums(greens(points), labels, n);
        lemma_one_cluster_sums(blues(points), labels, n);
        assert forall|k: int| 0 <= k < points.len() implies {
            let p = #[trigger] reduced(points, 1)[k];
            &&& p.x == points[k].x
            &&& p.y == points[k].y
            &&& p.color == global_mean(points)
        } by {
            assert(reduced(points, 1)[k] == reduced_point(points, labels, k));
            assert(cluster_size(labels, 0) == n);
            assert(cluster_mean(points, labels, 0) == global_mean(points));
        }
    }
}

/// Points that are few enough already are reduced to themselves.
pub proof fn lemma_reduce_few(points: Seq<ColorPoint>, target: nat)
    requires
        points.len() <= target,
    ensures
        reduced(points, target) == points,
{
}

/// Points of one cluster show one colour.
pub open spec fn monochrome(points: Seq<ColorPoint>, labels: Seq<int>) -> bool {
    forall|x: int, y: int|
        0 <= x < labels.len() && 0 <= y < labels.len() && #[trigger] labels[x]
            == #[trigger] labels[y] ==> points[x].color == points[y].color
}

/// Points of one cluster agree in red, green and blue.
pub open spec fn shares_rgb(points: Seq<ColorPoint>, labels: Seq<int>) -> bool {
    forall|x: int, y: int|
        0 <= x < labels.len() && 0 <= y < labels.len() && #[trigger] labels[x]
            == #[trigger] labels[y] ==> same_rgb(points[x].color, points[y].color)
}

/// A partition that keeps together what another keeps together has no
/// more clusters than the other.
pub proof fn lemma_coarser_has_fewer(fine: Seq<int>, coarse: Seq<int>, m: int)
    requires
        is_partition(fine),
        is_partition(coarse),
        fine.len() == coarse.len(),
        0 <= m <= fine.len(),
        forall|x: int, y: int|
            0 <= x < fine.len() && 0 <= y < fine.len() && #[trigger] fine[x] == #[trigger] fine[y]
                ==> coarse[x] == coarse[y],
    ensures
        count_roots(coarse, m) <= count_roots(fine, m),
    decreases m,
{
    if m > 0 {
        lemma_coarser_has_fewer(fine, coarse, m - 1);
        let r = m - 1;
        if coarse[r] == r {
            let f = fine[r];
            assert(fine[f] == fine[r]);
            assert(coarse[f] == coarse[r]);
        }
    }
}

/// The walk ends with no more clusters than the target, or with one.
pub proof fn lemma_clusters_count(points: Seq<ColorPoint>, target: nat)
    requires
        points.len() <= usize::MAX,
    ensures
        is_partition(clusters(points, target)),
        clusters(points, target).len() == points.len(),
        live_count(clusters(points, target)) <= target || live_count(clusters(points, target))
            <= 1,
{
    let n = points.len();
    let pairs = sorted_pairs(points);
    let out = clusters(points, target);
    lemma_sorted_pairs(points);
    lemma_singletons(n);
    assert(pairs_within(pairs, n)) by {
        assert forall|at: int| 0 <= at < pairs.len() implies (#[trigger] pairs[at]).1 < n
            && pairs[at].2 < n by {
            assert(is_pair_of(points, pairs[at]));
        }
    }
    lemma_walk(singletons(n), pairs, 0, target);
    if live_count(out) > target {
        assert forall|k: int| 0 <= k < n implies #[trigger] out[k] == 0 by {
            if k > 0 {
                let p = pair_of(points, 0, k);
                assert(pairs.contains(p));
                let at = choose|at: int| 0 <= at < pairs.len() && pairs[at] == p;
                assert(out[pairs[at].1 as int] == out[pairs[at].2 as int]);
                assert(out[0] == out[k]);
            }
            assert(out[0] == 0);
        }
        lemma_all_zero_count(out, n as int);
    }
}

proof fn lemma_all_zero_count(labels: Seq<int>, m: int)
    requires
        0 <= m <= labels.len(),
        forall|k: int| 0 <= k < labels.len() ==> #[trigger] labels[k] == 0,
    ensures
        count_roots(labels, m) <= 1,
        m <= 1 || count_roots(labels, m) == count_roots(labels, m - 1),
    decreases m,
{
    if m > 0 {
        lemma_all_zero_count(labels, m - 1);
        if m > 1 {
            assert(labels[m - 1] == 0);
        }
    }
}

/// A reduction of more points than the target allows leaves exactly as
/// many clusters as the target, and the points of one cluster show one
/// colour: no more colours than the target remain.
pub proof fn lemma_reduced_palette(points: Seq<ColorPoint>, target: nat)
    requires
        points.len() <= usize::MAX,
        1 <= target < points.len(),
    ensures
        is_partition(clusters(points, target)),
        live_count(clusters(points, target)) == target,
        reduced(points, target).len() == points.len(),
        monochrome(reduced(points, target), clusters(points, target)),
{
    let n = points.len();
    let pairs = sorted_pairs(points);
    let labels = clusters(points, target);
    let colored = reduced(points, target);
    lemma_clusters_count(points, target);
    lemma_sorted_pairs(points);
    lemma_singletons(n);
    assert(pairs_within(pairs, n)) by {
        assert forall|at: int| 0 <= at < pairs.len() implies (#[trigger] pairs[at]).1 < n
            && pairs[at].2 < n by {
            assert(is_pair_of(points, pairs[at]));
        }
    }
    lemma_walk(singletons(n), pairs, 0, target);
    lemma_recolor_monochrome(points, labels);
}

/// Of more points than the target allows, the nearest pair is merged: the
/// first candidate is at least as near as every pair, and its two points
/// end in one cluster and show one colour.
pub proof fn lemma_nearest_pair_merged(points: Seq<ColorPoint>, target: nat)
    requires
        2 <= points.len() <= usize::MAX,
        target < points.len(),
    ensures
        sorted_pairs(points).len() > 0,
        is_pair_of(points, sorted_pairs(points)[0]),
        forall|i: int, j: int|
            0 <= i < j < points.len() ==> sorted_pairs(points)[0].0 <= (#[trigger] pair_of(
                points,
                i,
                j,
            )).0,
        ({
            let nearest = sorted_pairs(points)[0];
            &&& clusters(points, target)[nearest.1 as int] == clusters(
                points,
                target,
            )[nearest.2 as int]
            &&& reduced(points, target)[nearest.1 as int].color == reduced(
                points,
                target,
            )[nearest.2 as int].color
        }),
{
    let n = points.len();
    let pairs = sorted_pairs(points);
    lemma_sorted_pairs(points);
    lemma_singletons(n);
    assert(pairs.contains(pair_of(points, 0, 1)));
    let nearest = pairs[0];
    assert(is_pair_of(points, nearest));
    assert forall|i: int, j: int| 0 <= i < j < points.len() implies nearest.0 <= (
    #[trigger] pair_of(points, i, j)).0 by {
        let q = pair_of(points, i, j);
        assert(pairs.contains(q));
        let at = choose|at: int| 0 <= at < pairs.len() && pairs[at] == q;
        if at > 0 {
            assert(pair_order()(pairs[0], pairs[at]));
        }
    }
    assert(pairs_within(pairs, n)) by {
        assert forall|at: int| 0 <= at < pairs.len() implies (#[trigger] pairs[at]).1 < n
            && pairs[at].2 < n by {
            assert(is_pair_of(points, pairs[at]));
        }
    }
    let start = singletons(n);
    let next = join(start, nearest.1 as int, nearest.2 as int);
    lemma_join(start, nearest.1 as int, nearest.2 as int);
    lemma_walk(next, pairs, 1, target);
    assert(clusters(points, target) == walk(next, pairs, 1, target));
    lemma_clusters_count(points, target);
    lemma_recolor_monochrome(points, clusters(points, target));
}

/// Recoloured by a partition, the points of one cluster show one colour.
pub proof fn lemma_recolor_monochrome(points: Seq<ColorPoint>, labels: Seq<int>)
    requires
        labels.len() == points.len(),
    ensures
        monochrome(recolor(points, labels), labels),
{
    let n = points.len() as int;
    let colored = recolor(points, labels);
    assert forall|x: int, y: int|
        0 <= x < n && 0 <= y < n && #[trigger] labels[x] == #[trigger] labels[y] implies colored[x].color
        == colored[y].color by {
        if x < y {
            lemma_two_members(labels, x, y, n);
        } else if y < x {
            lemma_two_members(labels, y, x, n);
        }
    }
}

/// A second walk over points that a first walk has coloured merges only
/// points that agree in red, green and blue.
proof fn lemma_second_walk(
    colored: Seq<ColorPoint>,
    first: Seq<int>,
    labels: Seq<int>,
    k: int,
    target: nat,
)
    requires
        colored.len() <= usize::MAX,
        0 <= k <= sorted_pairs(colored).len(),
        is_partition(labels),
        labels.len() == colored.len(),
        shares_rgb(colored, labels),
        forall|at: int|
            0 <= at < k ==> labels[(#[trigger] sorted_pairs(colored)[at]).1 as int]
                == labels[sorted_pairs(colored)[at].2 as int],
        is_partition(first),
        first.len() == colored.len(),
        shares_rgb(colored, first),
        live_count(first) <= target || live_count(first) <= 1,
    ensures
        shares_rgb(colored, walk(labels, sorted_pairs(colored), k, target)),
        walk(labels, sorted_pairs(colored), k, target).len() == colored.len(),
    decreases sorted_pairs(colored).len() - k,
{
    let n = colored.len();
    let pairs = sorted_pairs(colored);
    lemma_sorted_pairs(colored);
    if k >= pairs.len() || live_count(labels) <= target {
    } else {
        let p = pairs[k];
        let i = p.1 as int;
        let j = p.2 as int;
        assert(is_pair_of(colored, p));
        lemma_distance_sq(colored[i].color, colored[j].color);
        if !same_rgb(colored[i].color, colored[j].color) {
            assert(p.0 > 0);
            assert forall|x: int, y: int|
                0 <= x < n && 0 <= y < n && #[trigger] first[x] == #[trigger] first[y] implies labels[x]
                == labels[y] by {
                if x != y {
                    let (lo, hi) = if x < y {
                        (x, y)
                    } else {
                        (y, x)
                    };
                    assert(same_rgb(colored[lo].color, colored[hi].color));
                    lemma_distance_sq(colored[lo].color, colored[hi].color);
                    let q = pair_of(colored, lo, hi);
                    assert(q.0 == 0);
                    assert(pairs.contains(q));
                    let at = choose|at: int| 0 <= at < pairs.len() && pairs[at] == q;
                    if at > k {
                        assert(pair_order()(pairs[k], pairs[at]));
                    }
                    assert(at < k);
                    assert(labels[pairs[at].1 as int] == labels[pairs[at].2 as int]);
                }
            }
            lemma_coarser_has_fewer(first, labels, n as int);
            if live_count(first) > target {
                lemma_single_cluster(first);
                assert(first[i] == first[j]);
            }
            assert(false);
        }
        let next = join(labels, i, j);
        lemma_join(labels, i, j);
        assert(shares_rgb(colored, next)) by {
            assert forall|x: int, y: int|
                0 <= x < n && 0 <= y < n && #[trigger] next[x] == #[trigger] next[y] implies same_rgb(
                colored[x].color,
                colored[y].color,
            ) by {
                let lx = labels[x];
                let ly = labels[y];
                let li = labels[i];
                let lj = labels[j];
                if lx != ly {
                    if lx == li {
                        assert(ly == lj);
                    } else {
                        assert(lx == lj && ly == li);
                    }
                }
            }
        }
        assert forall|at: int| 0 <= at < k + 1 implies next[(#[trigger] pairs[at]).1 as int]
            == next[pairs[at].2 as int] by {
            assert(is_pair_of(colored, pairs[at]));
        }
        lemma_second_walk(colored, first, next, k + 1, target);
    }
}

/// The values of a cluster whose points all hold `value` add up to as
/// many times `value` as the cluster has points.
proof fn lemma_uniform_sum(values: Seq<int>, labels: Seq<int>, root: int, value: int, m: int)
    requires
        0 <= m <= labels.len(),
        values.len() == labels.len(),
        forall|x: int| 0 <= x < labels.len() && #[trigger] labels[x] == root ==> values[x] == value,
    ensures
        member_sum(values, labels, root, m) == value * count_members(labels, root, m),
    decreases m,
{
    if m > 0 {
        lemma_uniform_sum(values, labels, root, value, m - 1);
        let c = count_members(labels, root, m - 1) as int;
        assert(value * (c + 1) == value * c + value) by (nonlinear_arith);
        if labels[m - 1] == root {
            assert(values[m - 1] == value);
            assert(count_members(labels, root, m) == c + 1);
        } else {
            assert(count_members(labels, root, m) == c);
        }
    } else {
        assert(value * 0 == 0);
    }
}

proof fn lemma_member_counts(labels: Seq<int>, k: int, m: int)
    requires
        0 <= k < m <= labels.len(),
    ensures
        count_members(labels, labels[k], m) >= 1,
    decreases m,
{
    if m - 1 > k {
        lemma_member_counts(labels, k, m - 1);
    }
}

proof fn lemma_two_members(labels: Seq<int>, x: int, y: int, m: int)
    requires
        0 <= x < y < m <= labels.len(),
        labels[x] == labels[y],
    ensures
        count_members(labels, labels[x], m) >= 2,
    decreases m,
{
    if m - 1 > y {
        lemma_two_members(labels, x, y, m - 1);
    } else {
        lemma_member_counts(labels, x, y);
    }
}

/// Where the points of every cluster agree in red, green and blue, and
/// those of the clusters of two or more are opaque, recolouring changes
/// nothing.
pub proof fn lemma_settled_recolor(points: Seq<ColorPoint>, labels: Seq<int>)
    requires
        labels.len() == points.len(),
        shares_rgb(points, labels),
        forall|k: int|
            0 <= k < points.len() && cluster_size(labels, #[trigger] labels[k]) > 1
                ==> points[k].color.a == 255,
    ensures
        recolor(points, labels) == points,
{
    let n = points.len() as int;
    assert forall|k: int| 0 <= k < n implies reduced_point(points, labels, k) == points[k] by {
        let root = labels[k];
        let own = points[k].color;
        let size = count_members(labels, root, n) as int;
        lemma_member_counts(labels, k, n);
        assert forall|x: int| 0 <= x < n && #[trigger] labels[x] == root implies reds(points)[x]
            == own.r && greens(points)[x] == own.g && blues(points)[x] == own.b by {
            assert(labels[x] == labels[k]);
        }
        lemma_uniform_sum(reds(points), labels, root, own.r as int, n);
        lemma_uniform_sum(greens(points), labels, root, own.g as int, n);
        lemma_uniform_sum(blues(points), labels, root, own.b as int, n);
        lemma_mean_of_equal(own.r as int, size);
        lemma_mean_of_equal(own.g as int, size);
        lemma_mean_of_equal(own.b as int, size);
    }
    assert(recolor(points, labels) =~= points);
}

/// No point that a second reduction would merge is translucent after the
/// first.
pub open spec fn settled(points: Seq<ColorPoint>, target: nat) -> bool {
    let once = reduced(points, target);
    let again = clusters(once, target);
    forall|k: int|
        0 <= k < once.len() && cluster_size(again, #[trigger] again[k]) > 1 ==> once[k].color.a
            == 255
}

/// The second walk over a reduction merges only points that agree in red,
/// green and blue.
proof fn lemma_second_clusters(points: Seq<ColorPoint>, target: nat)
    requires
        points.len() <= usize::MAX,
    ensures
        clusters(reduced(points, target), target).len() == points.len(),
        reduced(points, target).len() == points.len(),
        shares_rgb(reduced(points, target), clusters(reduced(points, target), target)),
{
    let n = points.len();
    let once = reduced(points, target);
    lemma_singletons(n);
    if n > target {
        let first = clusters(points, target);
        lemma_clusters_count(points, target);
        lemma_recolor_monochrome(points, first);
        assert(shares_rgb(once, first));
        assert(shares_rgb(once, singletons(n)));
        lemma_second_walk(once, first, singletons(n), 0, target);
    } else {
        assert(clusters(once, target) == singletons(n));
        assert(shares_rgb(once, singletons(n)));
    }
}

/// A reduction reduced again to the same number of colours stays as it
/// is, unless the second reduction merges a point that the first has left
/// translucent: such a point turns opaque.
pub proof fn lemma_reduce_idempotent(points: Seq<ColorPoint>, target: nat)
    requires
        points.len() <= usize::MAX,
        settled(points, target),
    ensures
        reduced(reduced(points, target), target) == reduced(points, target),
{
    if points.len() > target {
        let once = reduced(points, target);
        lemma_second_clusters(points, target);
        lemma_settled_recolor(once, clusters(once, target));
    }
}

/// A reduction that is not settled changes when it is reduced again.
pub proof fn lemma_unsettled_changes(points: Seq<ColorPoint>, target: nat)
    requires
        points.len() <= usize::MAX,
        !settled(points, target),
    ensures
        reduced(reduced(points, target), target) != reduced(points, target),
{
    let once = reduced(points, target);
    let again = clusters(once, target);
    let k = choose|k: int|
        0 <= k < once.len() && cluster_size(again, #[trigger] again[k]) > 1 && once[k].color.a
            != 255;
    lemma_second_clusters(points, target);
    if once.len() > target {
        assert(reduced(once, target)[k] == reduced_point(once, again, k));
        assert(reduced(once, target)[k].color.a == 255);
    } else {
        lemma_singletons(once.len());
        assert(again == singletons(once.len()));
        lemma_alone_in_singletons(once.len(), k, once.len() as int);
    }
}

proof fn lemma_alone_in_singletons(n: nat, k: int, m: int)
    requires
        0 <= k < n,
        0 <= m <= n,
    ensures
        count_members(singletons(n), k, m) == if k < m { 1nat } else { 0nat },
    decreases m,
{
    if m > 0 {
        lemma_alone_in_singletons(n, k, m - 1);
    }
}

/// Opaque points are settled: reduced twice they are as reduced once.
pub proof fn lemma_reduce_idempotent_opaque(points: Seq<ColorPoint>, target: nat)
    requires
        points.len() <= usize::MAX,
        forall|k: int| 0 <= k < points.len() ==> (#[trigger] points[k]).color.a == 255,
    ensures
        settled(points, target),
        reduced(reduced(points, target), target) == reduced(points, target),
{
    let once = reduced(points, target);
    assert forall|k: int| 0 <= k < once.len() implies (#[trigger] once[k]).color.a == 255 by {
        if points.len() > target {
            assert(once[k] == reduced_point(points, clusters(points, target), k));
        }
    }
    lemma_reduce_idempotent(points, target);
}

} // verus!
