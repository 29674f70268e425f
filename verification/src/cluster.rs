//! Colour reduction: merging the nearest colours until few enough remain.
//!
//! Every point starts as a cluster of its own. The candidate pairs are
//! walked in ascending order of distance, and each pair whose points lie in
//! different clusters merges the two, until the number of clusters has come
//! down to the target. Every point of a merged cluster then takes the mean
//! colour of its cluster, which is opaque; a point that was never merged
//! keeps its colour.

use vstd::prelude::*;
use crate::average::{mean_of, AvgColor};
use crate::cancel::CancelToken;
use crate::forest::Forest;
use crate::pairs::{build_sorted_pairs, is_pair_of, lemma_sorted_pairs, sorted_pairs, Pair};
use crate::partition::{
    cluster_size, count_members, is_partition, join, lemma_join, live_count,
    singletons,
};
use crate::color::Rgba;
use crate::point::ColorPoint;

verus! {

/// The labels after the merge walk has gone on from candidate `k`: it
/// stops once no more than `target` clusters are live or the candidates
/// have run out.
pub open spec fn walk(labels: Seq<int>, pairs: Seq<Pair>, k: int, target: nat) -> Seq<int>
    decreases pairs.len() - k,
{
    if k < 0 || k >= pairs.len() || live_count(labels) <= target {
        labels
    } else {
        walk(join(labels, pairs[k].1 as int, pairs[k].2 as int), pairs, k + 1, target)
    }
}

/// The label of every point after the whole merge walk.
pub open spec fn clusters(points: Seq<ColorPoint>, target: nat) -> Seq<int> {
    walk(singletons(points.len()), sorted_pairs(points), 0, target)
}

/// The red channel of every point.
pub open spec fn reds(points: Seq<ColorPoint>) -> Seq<int> {
    Seq::new(points.len(), |k: int| points[k].color.r as int)
}

/// The green channel of every point.
pub open spec fn greens(points: Seq<ColorPoint>) -> Seq<int> {
    Seq::new(points.len(), |k: int| points[k].color.g as int)
}

/// The blue channel of every point.
pub open spec fn blues(points: Seq<ColorPoint>) -> Seq<int> {
    Seq::new(points.len(), |k: int| points[k].color.b as int)
}

/// The total of `values` over the indices below `n` that carry the label
/// `root`.
pub open spec fn member_sum(values: Seq<int>, labels: Seq<int>, root: int, n: int) -> int
    decreases n,
{
    if n <= 0 {
        0
    } else {
        member_sum(values, labels, root, n - 1) + if labels[n - 1] == root {
            values[n - 1]
        } else {
            0
        }
    }
}

/// The mean colour of the cluster with the given root: for each of red,
/// green and blue the total over its points divided by their number,
/// rounded down. It is opaque.
pub open spec fn cluster_mean(points: Seq<ColorPoint>, labels: Seq<int>, root: int) -> Rgba {
    let n = points.len() as int;
    mean_of(
        member_sum(reds(points), labels, root, n),
        member_sum(greens(points), labels, root, n),
        member_sum(blues(points), labels, root, n),
        count_members(labels, root, n) as int,
    )
}

/// The point at `k` after the reduction: unchanged where it is alone in
/// its cluster, else at its place with the mean colour of its cluster.
pub open spec fn reduced_point(points: Seq<ColorPoint>, labels: Seq<int>, k: int) -> ColorPoint {
    if cluster_size(labels, labels[k]) <= 1 {
        points[k]
    } else {
        ColorPoint { x: points[k].x, y: points[k].y, color: cluster_mean(points, labels, labels[k]) }
    }
}

/// Every point recoloured by its cluster.
pub open spec fn recolor(points: Seq<ColorPoint>, labels: Seq<int>) -> Seq<ColorPoint> {
    Seq::new(points.len(), |k: int| reduced_point(points, labels, k))
}

/// The reduction of `points` to at most `target` colours. Points that are
/// few enough already stay as they are.
pub open spec fn reduced(points: Seq<ColorPoint>, target: nat) -> Seq<ColorPoint> {
    if points.len() <= target {
        points
    } else {
        recolor(points, clusters(points, target))
    }
}

proof fn lemma_count_members_bound(labels: Seq<int>, root: int, n: int)
    ensures
        count_members(labels, root, n) <= if n < 0 { 0 } else { n },
    decreases n,
{
    if n > 0 {
        lemma_count_members_bound(labels, root, n - 1);
    }
}

/// Walks the candidates and merges clusters until no more than `target`
/// are live. The token is polled before every candidate; `None` says that
/// it tripped.
fn merge_walk(points: &Vec<ColorPoint>, pairs: &Vec<Pair>, target: usize, token: &mut CancelToken) -> (done: Option<Forest>)
    requires
        pairs@ == sorted_pairs(points@),
        !old(token).tripped(),
    ensures
        match done {
            Some(forest) => {
                &&& forest.wf()
                &&& forest@ == clusters(points@, target as nat)
                &&& forest@.len() == points.len()
                &&& !final(token).tripped()
            },
            None => final(token).tripped() && old(token).signal() is Some,
        },
        final(token).signal() == old(token).signal(),
{
    let n = points.len();
    let mut forest = Forest::new(n);
    let mut k: usize = 0;
    proof {
        lemma_sorted_pairs(points@);
    }
    while k < pairs.len() && forest.live() > target
        invariant
            n == points.len(),
            forest.wf(),
            forest@.len() == n,
            k <= pairs.len(),
            !token.tripped(),
            token.signal() == old(token).signal(),
            forall|at: int| 0 <= at < pairs.len() ==> is_pair_of(points@, #[trigger] pairs@[at]),
            walk(forest@, pairs@, k as int, target as nat) == clusters(points@, target as nat),
        decreases pairs.len() - k,
    {
        if token.poll() {
            return None;
        }
        let (_, i, j) = pairs[k];
        assert(is_pair_of(points@, pairs@[k as int]));
        let ghost before = forest@;
        let a = forest.find(i);
        let b = forest.find(j);
        proof {
            forest.lemma_wf();
            lemma_join(before, i as int, j as int);
        }
        if a != b {
            forest.link(a, b);
            assert(forest@ == join(before, i as int, j as int));
        }
        k += 1;
    }
    Some(forest)
}

/// The root of every point, and for every root the totals of its cluster.
fn tally(points: &Vec<ColorPoint>, forest: &mut Forest) -> (res: (Vec<usize>, Vec<AvgColor>))
    requires
        old(forest).wf(),
        old(forest)@.len() == points.len(),
    ensures
        final(forest).wf(),
        final(forest)@ == old(forest)@,
        res.0.len() == points.len(),
        res.1.len() == points.len(),
        forall|k: int| 0 <= k < points.len() ==> #[trigger] res.0[k] == old(forest)@[k],
        forall|r: int|
            0 <= r < points.len() ==> {
                let t = #[trigger] res.1[r];
                let n = points.len() as int;
                &&& t.wf()
                &&& t.num() == count_members(old(forest)@, r, n)
                &&& t.red() == member_sum(reds(points@), old(forest)@, r, n)
                &&& t.green() == member_sum(greens(points@), old(forest)@, r, n)
                &&& t.blue() == member_sum(blues(points@), old(forest)@, r, n)
            },
{
    let n = points.len();
    let ghost labels = forest@;
    let mut roots: Vec<usize> = Vec::new();
    let mut totals: Vec<AvgColor> = Vec::new();
    let mut k: usize = 0;
    while k < n
        invariant
            k <= n,
            totals.len() == k,
            forall|r: int|
                0 <= r < k ==> {
                    let t = #[trigger] totals[r];
                    t.wf() && t.num() == 0 && t.red() == 0 && t.green() == 0 && t.blue() == 0
                },
        decreases n - k,
    {
        totals.push(AvgColor::new());
        k += 1;
    }
    k = 0;
    proof {
        forest.lemma_wf();
    }
    while k < n
        invariant
            n == points.len(),
            k <= n,
            forest.wf(),
            forest@ == labels,
            labels.len() == n,
            is_partition(labels),
            roots.len() == k,
            totals.len() == n,
            forall|x: int| 0 <= x < k ==> #[trigger] roots[x] == labels[x],
            forall|r: int|
                0 <= r < n ==> {
                    let t = #[trigger] totals[r];
                    &&& t.wf()
                    &&& t.num() == count_members(labels, r, k as int)
                    &&& t.red() == member_sum(reds(points@), labels, r, k as int)
                    &&& t.green() == member_sum(greens(points@), labels, r, k as int)
                    &&& t.blue() == member_sum(blues(points@), labels, r, k as int)
                },
        decreases n - k,
    {
        let root = forest.find(k);
        roots.push(root);
        let mut total = totals[root];
        proof {
            lemma_count_members_bound(labels, root as int, k as int);
        }
        total.add_color(points[k].color);
        totals.set(root, total);
        k += 1;
    }
    (roots, totals)
}

/// Gives every point of a merged cluster the mean colour of its cluster.
fn expand(points: &Vec<ColorPoint>, forest: &mut Forest) -> (out: Vec<ColorPoint>)
    requires
        old(forest).wf(),
        old(forest)@.len() == points.len(),
    ensures
        out@ == recolor(points@, old(forest)@),
{
    let n = points.len();
    let ghost labels = forest@;
    let (roots, totals) = tally(points, forest);
    let mut out: Vec<ColorPoint> = Vec::new();
    let mut k: usize = 0;
    proof {
        forest.lemma_wf();
    }
    while k < n
        invariant
            n == points.len(),
            k <= n,
            labels.len() == n,
            is_partition(labels),
            roots.len() == n,
            totals.len() == n,
            out.len() == k,
            forall|x: int| 0 <= x < n ==> #[trigger] roots[x] == labels[x],
            forall|r: int|
                0 <= r < n ==> {
                    let t = #[trigger] totals[r];
                    &&& t.wf()
                    &&& t.num() == count_members(labels, r, n as int)
                    &&& t.red() == member_sum(reds(points@), labels, r, n as int)
                    &&& t.green() == member_sum(greens(points@), labels, r, n as int)
                    &&& t.blue() == member_sum(blues(points@), labels, r, n as int)
                },
            forall|x: int| 0 <= x < k ==> #[trigger] out[x] == reduced_point(points@, labels, x),
        decreases n - k,
    {
        let root = roots[k];
        assert(root == labels[k as int]);
        let total = totals[root];
        if total.count() <= 1 {
            out.push(points[k]);
        } else {
            out.push(points[k].recolored(total.compute_average()));
        }
        k += 1;
    }
    assert(out@ =~= recolor(points@, labels));
    out
}

/// Reduces `points` to at most `target` colours.
///
/// Points that are few enough already come back unchanged, and the token
/// is not polled. Otherwise the token is polled once the candidate pairs
/// are sorted and then before every candidate of the merge walk: if it
/// trips, nothing comes back; if it does not, the reduction does. A token
/// that had tripped before the call therefore yields nothing.
pub fn reduce(points: Vec<ColorPoint>, target: usize, token: &mut CancelToken) -> (out: Vec<ColorPoint>)
    ensures
        points.len() <= target ==> out@ == points@ && *final(token) == *old(token),
        points.len() > target && final(token).tripped() ==> out@.len() == 0,
        points.len() > target && !final(token).tripped() ==> out@ == reduced(
            points@,
            target as nat,
        ),
        old(token).tripped() ==> final(token).tripped(),
        final(token).signal() == old(token).signal(),
        old(token).signal() is None && !old(token).tripped() ==> !final(token).tripped(),
{
    if points.len() <= target {
        return points;
    }
    let pairs = build_sorted_pairs(&points);
    if token.poll() {
        return Vec::new();
    }
    match merge_walk(&points, &pairs, target, token) {
        Some(mut forest) => expand(&points, &mut forest),
        None => Vec::new(),
    }
}

} // verus!
