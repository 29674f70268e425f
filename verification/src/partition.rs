//! Partitions of the indices `0..n` into clusters, as sequences of labels.
//!
//! A partition gives every index the least index of its cluster as its
//! label. The indices that are their own label are the roots: one for each
//! cluster.

use vstd::prelude::*;

verus! {

/// Every label is the least index of a cluster: it is at most the index it
/// stands at, and it is its own label.
pub open spec fn is_partition(labels: Seq<int>) -> bool {
    forall|k: int|
        0 <= k < labels.len() ==> 0 <= #[trigger] labels[k] <= k && labels[labels[k]] == labels[k]
}

/// The partition of `0..n` in which every index is alone.
pub open spec fn singletons(n: nat) -> Seq<int> {
    Seq::new(n, |k: int| k)
}

/// The labels after the cluster `from` has gone into the cluster `into`.
pub open spec fn relabel(labels: Seq<int>, from: int, into: int) -> Seq<int> {
    Seq::new(
        labels.len(),
        |k: int|
            if labels[k] == from {
                into
            } else {
                labels[k]
            },
    )
}

/// The labels after the clusters of `i` and `j` have been merged: the one
/// with the greater root goes into the other.
pub open spec fn join(labels: Seq<int>, i: int, j: int) -> Seq<int> {
    if labels[i] < labels[j] {
        relabel(labels, labels[j], labels[i])
    } else {
        relabel(labels, labels[i], labels[j])
    }
}

/// The number of roots among the first `n` indices.
pub open spec fn count_roots(labels: Seq<int>, n: int) -> nat
    decreases n,
{
    if n <= 0 {
        0
    } else {
        count_roots(labels, n - 1) + if labels[n - 1] == n - 1 {
            1nat
        } else {
            0nat
        }
    }
}

/// The number of clusters.
pub open spec fn live_count(labels: Seq<int>) -> nat {
    count_roots(labels, labels.len() as int)
}

/// The number of indices among the first `n` that carry the label `root`.
pub open spec fn count_members(labels: Seq<int>, root: int, n: int) -> nat
    decreases n,
{
    if n <= 0 {
        0
    } else {
        count_members(labels, root, n - 1) + if labels[n - 1] == root {
            1nat
        } else {
            0nat
        }
    }
}

/// The size of the cluster with the given root.
pub open spec fn cluster_size(labels: Seq<int>, root: int) -> nat {
    count_members(labels, root, labels.len() as int)
}

pub proof fn lemma_count_roots_bound(labels: Seq<int>, n: int)
    ensures
        count_roots(labels, n) <= if n < 0 { 0 } else { n },
    decreases n,
{
    if n > 0 {
        lemma_count_roots_bound(labels, n - 1);
    }
}

/// Alone, every index is a root.
pub proof fn lemma_singletons(n: nat)
    ensures
        is_partition(singletons(n)),
        singletons(n).len() == n,
        live_count(singletons(n)) == n,
{
    lemma_singletons_count(n, n as int);
}

proof fn lemma_singletons_count(n: nat, m: int)
    requires
        0 <= m <= n,
    ensures
        count_roots(singletons(n), m) == m,
    decreases m,
{
    if m > 0 {
        lemma_singletons_count(n, m - 1);
    }
}

proof fn lemma_relabel_count(labels: Seq<int>, from: int, into: int, m: int)
    requires
        is_partition(labels),
        0 <= into < from < labels.len(),
        labels[from] == from,
        labels[into] == into,
        0 <= m <= labels.len(),
    ensures
        count_roots(relabel(labels, from, into), m) + (if from < m { 1nat } else { 0nat })
            == count_roots(labels, m),
    decreases m,
{
    if m > 0 {
        lemma_relabel_count(labels, from, into, m - 1);
        let k = m - 1;
        let after = relabel(labels, from, into);
        assert(after[k] == if labels[k] == from { into } else { labels[k] });
        if labels[k] == k {
            if k == from {
                assert(after[k] == into);
            } else {
                assert(after[k] == k);
            }
        } else {
            if labels[k] == from {
                assert(after[k] == into);
                assert(into != k) by {
                    if into == k {
                        assert(labels[into] == into);
                    }
                }
            } else {
                assert(after[k] == labels[k]);
            }
        }
    }
}

/// What a merge does to a partition: it stays one, indices that shared a
/// cluster still do, `i` and `j` now do, and one cluster is gone unless
/// they did before.
pub proof fn lemma_join(labels: Seq<int>, i: int, j: int)
    requires
        is_partition(labels),
        0 <= i < labels.len(),
        0 <= j < labels.len(),
    ensures
        is_partition(join(labels, i, j)),
        join(labels, i, j).len() == labels.len(),
        join(labels, i, j)[i] == join(labels, i, j)[j],
        forall|x: int, y: int|
            0 <= x < labels.len() && 0 <= y < labels.len() && labels[x] == labels[y] ==> join(
                labels,
                i,
                j,
            )[x] == join(labels, i, j)[y],
        labels[i] == labels[j] ==> join(labels, i, j) == labels,
        labels[i] != labels[j] ==> live_count(join(labels, i, j)) + 1 == live_count(labels),
{
    let a = labels[i];
    let b = labels[j];
    let after = join(labels, i, j);
    assert(labels[a] == a && labels[b] == b);
    if a == b {
        assert(after =~= labels);
    } else if a < b {
        lemma_relabel_count(labels, b, a, labels.len() as int);
        assert forall|k: int| 0 <= k < after.len() implies 0 <= #[trigger] after[k] <= k
            && after[after[k]] == after[k] by {
            let l = labels[k];
            assert(labels[l] == l);
            if l == b {
                assert(after[k] == a);
                assert(after[a] == a);
            } else {
                assert(after[k] == l);
                assert(after[l] == l);
            }
        }
    } else {
        lemma_relabel_count(labels, a, b, labels.len() as int);
        assert forall|k: int| 0 <= k < after.len() implies 0 <= #[trigger] after[k] <= k
            && after[after[k]] == after[k] by {
            let l = labels[k];
            assert(labels[l] == l);
            if l == a {
                assert(after[k] == b);
                assert(after[b] == b);
            } else {
                assert(after[k] == l);
                assert(after[l] == l);
            }
        }
    }
}

proof fn lemma_roots_above(labels: Seq<int>, m: int, r: int)
    requires
        is_partition(labels),
        0 <= r < m <= labels.len(),
        labels[r] == r,
        r != 0,
    ensures
        count_roots(labels, m) >= 2,
    decreases m,
{
    if m - 1 == r {
        lemma_first_root(labels, r);
    } else {
        lemma_roots_above(labels, m - 1, r);
    }
}

proof fn lemma_first_root(labels: Seq<int>, m: int)
    requires
        is_partition(labels),
        0 < m <= labels.len(),
    ensures
        count_roots(labels, m) >= 1,
    decreases m,
{
    if m > 1 {
        lemma_first_root(labels, m - 1);
    } else {
        assert(labels[0] == 0);
        assert(count_roots(labels, 0) == 0);
    }
}

/// A partition with at most one cluster gives every index the label 0.
pub proof fn lemma_single_cluster(labels: Seq<int>)
    requires
        is_partition(labels),
        live_count(labels) <= 1,
    ensures
        forall|k: int| 0 <= k < labels.len() ==> #[trigger] labels[k] == 0,
{
    assert forall|k: int| 0 <= k < labels.len() implies #[trigger] labels[k] == 0 by {
        let r = labels[k];
        assert(labels[r] == r);
        if r != 0 {
            lemma_roots_above(labels, labels.len() as int, r);
        }
    }
}

} // verus!
