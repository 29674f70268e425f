//! A union-find forest over the indices `0..n`.
//!
//! Every index holds a redirect to an index that is not greater. An index
//! that redirects to itself is the root of a live cluster; following the
//! redirects from any index ends at the root of its cluster.

use vstd::prelude::*;
use crate::partition::{is_partition, join, lemma_count_roots_bound, lemma_join, lemma_singletons, live_count, singletons};

verus! {

/// The root that the redirect chain from `k` ends at.
pub open spec fn resolve(parent: Seq<usize>, k: int) -> int
    decreases k,
{
    if 0 <= k < parent.len() && parent[k] < k {
        resolve(parent, parent[k] as int)
    } else {
        k
    }
}

/// No redirect points forward.
pub open spec fn redirects_back(parent: Seq<usize>) -> bool {
    forall|k: int| 0 <= k < parent.len() ==> #[trigger] parent[k] <= k
}

/// The label of every index: the root of its chain.
pub open spec fn labels_of(parent: Seq<usize>) -> Seq<int> {
    Seq::new(parent.len(), |k: int| resolve(parent, k))
}

proof fn lemma_resolve_root(parent: Seq<usize>, k: int)
    requires
        redirects_back(parent),
        0 <= k < parent.len(),
    ensures
        0 <= resolve(parent, k) <= k,
        parent[resolve(parent, k)] == resolve(parent, k),
        resolve(parent, resolve(parent, k)) == resolve(parent, k),
    decreases k,
{
    if parent[k] < k {
        lemma_resolve_root(parent, parent[k] as int);
    }
}

proof fn lemma_labels_partition(parent: Seq<usize>)
    requires
        redirects_back(parent),
    ensures
        is_partition(labels_of(parent)),
{
    let labels = labels_of(parent);
    assert forall|k: int| 0 <= k < labels.len() implies 0 <= #[trigger] labels[k] <= k
        && labels[labels[k]] == labels[k] by {
        lemma_resolve_root(parent, k);
    }
}

/// Redirecting an index straight to its root changes no label.
proof fn lemma_shortcut(parent: Seq<usize>, k: int, x: int)
    requires
        redirects_back(parent),
        0 <= k < parent.len(),
        0 <= x < parent.len(),
    ensures
        resolve(parent.update(k, resolve(parent, k) as usize), x) == resolve(parent, x),
    decreases x,
{
    lemma_resolve_root(parent, k);
    let root = resolve(parent, k);
    let after = parent.update(k, root as usize);
    if x == k {
        if root < k {
            lemma_shortcut(parent, k, root);
        }
    } else if parent[x] < x {
        lemma_shortcut(parent, k, parent[x] as int);
    }
}

/// Redirecting a root to a lesser root relabels its cluster.
proof fn lemma_link(parent: Seq<usize>, from: int, into: int, x: int)
    requires
        redirects_back(parent),
        0 <= into < from < parent.len(),
        parent[from] == from,
        parent[into] == into,
        0 <= x < parent.len(),
    ensures
        resolve(parent.update(from, into as usize), x) == if resolve(parent, x) == from {
            into
        } else {
            resolve(parent, x)
        },
    decreases x,
{
    let after = parent.update(from, into as usize);
    if x == from {
        assert(resolve(after, into) == into);
    } else if parent[x] < x {
        lemma_link(parent, from, into, parent[x] as int);
    }
}

/// The clusters of a merge walk, with the number of those that are live.
pub struct Forest {
    parent: Vec<usize>,
    live: usize,
}

impl View for Forest {
    type V = Seq<int>;

    /// The label of every index.
    closed spec fn view(&self) -> Seq<int> {
        labels_of(self.parent@)
    }
}

impl Forest {
    /// The redirects point backward and the count of live clusters is right.
    pub closed spec fn wf(&self) -> bool {
        &&& redirects_back(self.parent@)
        &&& self.live == live_count(self@)
    }

    /// A well-formed forest is a partition.
    pub proof fn lemma_wf(&self)
        requires
            self.wf(),
        ensures
            is_partition(self@),
    {
        lemma_labels_partition(self.parent@);
    }

    /// The forest of `n` clusters of one index each.
    pub fn new(n: usize) -> (forest: Forest)
        ensures
            forest.wf(),
            forest@ == singletons(n as nat),
    {
        let mut parent: Vec<usize> = Vec::new();
        let mut k: usize = 0;
        while k < n
            invariant
                k <= n,
                parent.len() == k,
                forall|x: int| 0 <= x < k ==> #[trigger] parent[x] == x,
            decreases n - k,
        {
            parent.push(k);
            k += 1;
        }
        let forest = Forest { parent, live: n };
        proof {
            assert(forest@ =~= singletons(n as nat));
            lemma_singletons(n as nat);
        }
        forest
    }

    /// The number of indices.
    pub fn len(&self) -> (n: usize)
        ensures
            n == self@.len(),
    {
        self.parent.len()
    }

    /// The number of live clusters.
    pub fn live(&self) -> (n: usize)
        requires
            self.wf(),
        ensures
            n == live_count(self@),
    {
        self.live
    }

    /// The root of the cluster of `k`. The chain that led there is
    /// shortened on the way; no label changes.
    pub fn find(&mut self, k: usize) -> (root: usize)
        requires
            old(self).wf(),
            k < old(self)@.len(),
        ensures
            final(self).wf(),
            final(self)@ == old(self)@,
            root == old(self)@[k as int],
    {
        let mut root: usize = k;
        while self.parent[root] < root
            invariant
                redirects_back(self.parent@),
                root < self.parent.len(),
                resolve(self.parent@, root as int) == resolve(self.parent@, k as int),
            decreases root,
        {
            root = self.parent[root];
        }
        let mut at: usize = k;
        while self.parent[at] < at
            invariant
                redirects_back(self.parent@),
                self.parent.len() == old(self).parent.len(),
                at < self.parent.len(),
                root < self.parent.len(),
                labels_of(self.parent@) == labels_of(old(self).parent@),
                resolve(self.parent@, at as int) == root,
                self.live == old(self).live,
            decreases at,
        {
            let next: usize = self.parent[at];
            proof {
                let before = self.parent@;
                let after = before.update(at as int, root);
                assert forall|x: int| 0 <= x < before.len() implies resolve(after, x) == resolve(
                    before,
                    x,
                ) by {
                    lemma_shortcut(before, at as int, x);
                }
                assert(labels_of(after) =~= labels_of(before));
                lemma_resolve_root(before, at as int);
                assert(resolve(after, next as int) == resolve(before, next as int));
            }
            self.parent.set(at, root);
            at = next;
        }
        root
    }

    /// Merges two live clusters by their roots: the greater root is
    /// redirected to the lesser.
    pub fn link(&mut self, a: usize, b: usize)
        requires
            old(self).wf(),
            a < old(self)@.len(),
            b < old(self)@.len(),
            old(self)@[a as int] == a,
            old(self)@[b as int] == b,
            a != b,
        ensures
            final(self).wf(),
            final(self)@ == join(old(self)@, a as int, b as int),
            live_count(final(self)@) + 1 == live_count(old(self)@),
    {
        let (into, from) = if a < b {
            (a, b)
        } else {
            (b, a)
        };
        proof {
            let before = self.parent@;
            lemma_labels_partition(before);
            lemma_join(self@, a as int, b as int);
            lemma_resolve_root(before, a as int);
            lemma_resolve_root(before, b as int);
            let after = before.update(from as int, into);
            assert forall|x: int| 0 <= x < before.len() implies resolve(after, x) == join(
                self@,
                a as int,
                b as int,
            )[x] by {
                lemma_link(before, from as int, into as int, x);
            }
            assert(labels_of(after) =~= join(self@, a as int, b as int));
            lemma_count_roots_bound(self@, self@.len() as int);
        }
        self.parent.set(from, into);
        self.live = self.live - 1;
    }
}

} // verus!
