//! How many times each node occurs in the expansion of a root.

use vstd::prelude::*;

use super::super::error::DomainError;
use super::super::graph::{
    has_id, index_of, is_path, lemma_index_of, lemma_index_of_node, lemma_mult_rank,
    lemma_occurrences_recurrence, mult, occurrences, parent_occurrences, ranked, reaches, seq_count,
};
use super::super::node::NodeId;
use super::{child_at, child_count, find_id, listed, CatalogSnapshot};

verus! {

/// `x` capped at `u64::MAX`.
pub open spec fn capped(x: nat) -> nat {
    if x > u64::MAX {
        u64::MAX as nat
    } else {
        x
    }
}

/// `1` for the root itself, `0` for any other node.
pub open spec fn base(root: NodeId, v: NodeId) -> nat {
    if v == root {
        1
    } else {
        0
    }
}

/// Sum, over the first `j` nodes `u` ranked at least `k`, of the edges `u -> v` times the
/// occurrences of `u`.
spec fn ranked_parents(ns: Seq<super::super::node::Node>, rank: Seq<nat>, root: NodeId, v: NodeId, k: nat, j: nat) -> nat
    decreases j,
{
    if j == 0 {
        0
    } else {
        ranked_parents(ns, rank, root, v, k, (j - 1) as nat) + if rank[j - 1] >= k {
            mult(ns, j - 1, v) * occurrences(ns, root, ns[j - 1].header.id)
        } else {
            0
        }
    }
}

proof fn lemma_ranked_all(ns: Seq<super::super::node::Node>, rank: Seq<nat>, root: NodeId, v: NodeId, j: nat)
    ensures
        ranked_parents(ns, rank, root, v, 0, j) == parent_occurrences(ns, root, v, j),
    decreases j,
{
    if j > 0 {
        lemma_ranked_all(ns, rank, root, v, (j - 1) as nat);
    }
}

proof fn lemma_ranked_step(
    ns: Seq<super::super::node::Node>,
    rank: Seq<nat>,
    root: NodeId,
    v: NodeId,
    u: int,
    j: nat,
)
    requires
        0 <= u < ns.len(),
        j <= ns.len(),
        rank.len() == ns.len(),
        forall|a: int, b: int| 0 <= a < ns.len() && 0 <= b < ns.len() && a != b ==> #[trigger] rank[a] != #[trigger] rank[b],
    ensures
        ranked_parents(ns, rank, root, v, rank[u], j) == ranked_parents(ns, rank, root, v, rank[u] + 1, j) + if u < j {
            mult(ns, u, v) * occurrences(ns, root, ns[u].header.id)
        } else {
            0
        },
    decreases j,
{
    if j > 0 {
        lemma_ranked_step(ns, rank, root, v, u, (j - 1) as nat);
        if j - 1 != u {
            assert(rank[j - 1] != rank[u]);
        }
    }
}

proof fn lemma_ranked_top(ns: Seq<super::super::node::Node>, rank: Seq<nat>, root: NodeId, u: int, j: nat)
    requires
        ranked(ns, rank),
        0 <= u < ns.len(),
        j <= ns.len(),
    ensures
        ranked_parents(ns, rank, root, ns[u].header.id, rank[u] + 1, j) == parent_occurrences(
            ns,
            root,
            ns[u].header.id,
            j,
        ),
    decreases j,
{
    if j > 0 {
        lemma_ranked_top(ns, rank, root, u, (j - 1) as nat);
        let t = j - 1;
        let m = mult(ns, t, ns[u].header.id);
        if rank[t] < rank[u] + 1 {
            if m > 0 {
                lemma_mult_rank(ns, rank, t, ns[u].header.id);
                lemma_index_of_node(ns, u);
            }
            let o = occurrences(ns, root, ns[t].header.id);
            assert(m * o == 0) by (nonlinear_arith)
                requires
                    m == 0,
            ;
        }
    }
}

proof fn lemma_ranked_le(ns: Seq<super::super::node::Node>, rank: Seq<nat>, root: NodeId, v: NodeId, k: nat, j: nat)
    ensures
        ranked_parents(ns, rank, root, v, k, j) <= parent_occurrences(ns, root, v, j),
    decreases j,
{
    if j > 0 {
        lemma_ranked_le(ns, rank, root, v, k, (j - 1) as nat);
    }
}

/// Counting the occurrences of `v` in a prefix one element longer.
proof fn lemma_count_take(s: Seq<NodeId>, t: int, v: NodeId)
    requires
        0 <= t < s.len(),
    ensures
        seq_count(s.take(t + 1), v) == seq_count(s.take(t), v) + if s[t] == v {
            1nat
        } else {
            0nat
        },
{
    assert(s.take(t + 1).drop_last() =~= s.take(t));
}

proof fn lemma_count_prefix_le(s: Seq<NodeId>, t: int, v: NodeId)
    requires
        0 <= t <= s.len(),
    ensures
        seq_count(s.take(t), v) <= seq_count(s, v),
    decreases s.len() - t,
{
    if t < s.len() {
        lemma_count_take(s, t, v);
        lemma_count_prefix_le(s, t + 1, v);
    } else {
        assert(s.take(t) =~= s);
    }
}

impl CatalogSnapshot {
    /// Path counts from the node at position `ri`, in node order: exact, or capped at
    /// `u64::MAX` when `saturate`; without `saturate`, an overflow names a node whose count
    /// exceeds `u64::MAX`.
    fn path_counts(&self, ri: usize, saturate: bool) -> (r: Result<Vec<u64>, NodeId>)
        requires
            ri < self.nodes().len(),
        ensures
            match r {
                Ok(c) => c@.len() == self.nodes().len() && forall|x: int|
                    0 <= x < self.nodes().len() ==> #[trigger] c@[x] == if saturate {
                        capped(occurrences(self.nodes(), self.nodes()[ri as int].header.id, self.nodes()[x].header.id))
                    } else {
                        occurrences(self.nodes(), self.nodes()[ri as int].header.id, self.nodes()[x].header.id)
                    },
                Err(at) => !saturate && occurrences(self.nodes(), self.nodes()[ri as int].header.id, at) > u64::MAX,
            },
    {
        proof {
            use_type_invariant(self);
            self.lemma_nodes_view();
        }
        let ghost ns = self.nodes@;
        let ghost rank = self.rank@;
        let n = self.nodes.len();
        let ghost root = ns[ri as int].header.id;
        proof {
            assert forall|a: int, b: int| 0 <= a < ns.len() && 0 <= b < ns.len() && a != b implies #[trigger] rank[a] != #[trigger] rank[b] by {
                assert(self.finish@[rank[a] as int] == a);
                assert(self.finish@[rank[b] as int] == b);
            }
        }
        let mut counts: Vec<u64> = Vec::new();
        let mut i: usize = 0;
        while i < n
            invariant
                0 <= i <= n,
                n == ns.len(),
                counts@.len() == i,
                forall|x: int| 0 <= x < i ==> #[trigger] counts@[x] == 0,
            decreases n - i,
        {
            counts.push(0);
            i = i + 1;
        }
        counts.set(ri, 1);
        proof {
            lemma_index_of_node(ns, ri as int);
            assert forall|x: int| 0 <= x < n implies #[trigger] counts@[x] == (if saturate {
                capped(base(root, ns[x].header.id) + ranked_parents(ns, rank, root, ns[x].header.id, n as nat, n as nat))
            } else {
                base(root, ns[x].header.id) + ranked_parents(ns, rank, root, ns[x].header.id, n as nat, n as nat)
            }) by {
                lemma_ranked_none(ns, rank, root, ns[x].header.id, n as nat);
                if x != ri as int {
                    assert(ns[x].header.id != root);
                }
            }
        }
        let mut k: usize = n;
        while k > 0
            invariant
                self.well_formed(),
                ns == self.nodes@,
                rank == self.rank@,
                n == ns.len(),
                ri < n,
                root == ns[ri as int].header.id,
                0 <= k <= n,
                counts@.len() == n,
                forall|a: int, b: int| 0 <= a < ns.len() && 0 <= b < ns.len() && a != b ==> #[trigger] rank[a] != #[trigger] rank[b],
                forall|x: int| 0 <= x < n ==> #[trigger] counts@[x] == (if saturate {
                    capped(base(root, ns[x].header.id) + ranked_parents(ns, rank, root, ns[x].header.id, k as nat, n as nat))
                } else {
                    base(root, ns[x].header.id) + ranked_parents(ns, rank, root, ns[x].header.id, k as nat, n as nat)
                }),
            decreases k,
        {
            k = k - 1;
            let u = self.finish[k];
            let ghost uid = ns[u as int].header.id;
            proof {
                assert(u < n && rank[u as int] == k);
                lemma_index_of_node(ns, u as int);
                lemma_ranked_top(ns, rank, root, u as int, n as nat);
                lemma_occurrences_recurrence(ns, rank, root, uid);
            }
            let cu = counts[u];
            let ghost occ_u = occurrences(ns, root, uid);
            let count = child_count(&self.nodes[u]);
            let ghost kids = ns[u as int].body.children();
            proof {
                assert forall|x: int| 0 <= x < n implies seq_count(kids.take(0), #[trigger] ns[x].header.id) * occ_u == 0 by {
                    assert(kids.take(0).len() == 0);
                    let z = seq_count(kids.take(0), ns[x].header.id);
                    assert(z == 0);
                    assert(z * occ_u == 0) by (nonlinear_arith)
                        requires
                            z == 0,
                    ;
                }
            }
            let mut t: usize = 0;
            while t < count
                invariant
                    self.well_formed(),
                    ns == self.nodes@,
                    rank == self.rank@,
                    n == ns.len(),
                    u < n,
                    ri < n,
                    root == ns[ri as int].header.id,
                    rank[u as int] == k,
                    uid == ns[u as int].header.id,
                    kids == ns[u as int].body.children(),
                    count == kids.len(),
                    occ_u == occurrences(ns, root, uid),
                    cu == if saturate { capped(occ_u) } else { occ_u },
                    0 <= t <= count,
                    counts@.len() == n,
                    forall|x: int| 0 <= x < n ==> #[trigger] counts@[x] == (if saturate {
                        capped(base(root, ns[x].header.id) + ranked_parents(ns, rank, root, ns[x].header.id, (k + 1) as nat, n as nat)
                            + seq_count(kids.take(t as int), ns[x].header.id) * occ_u)
                    } else {
                        base(root, ns[x].header.id) + ranked_parents(ns, rank, root, ns[x].header.id, (k + 1) as nat, n as nat)
                            + seq_count(kids.take(t as int), ns[x].header.id) * occ_u
                    }),
                decreases count - t,
            {
                let child = child_at(&self.nodes[u], t);
                let ci = match find_id(&self.nodes, &self.by_id, child) {
                    Some(x) => x,
                    None => {
                        proof {
                            assert(has_id(ns, ns[u as int].body.children()[t as int]));
                        }
                        u
                    },
                };
                let old = counts[ci];
                let ghost cid = ns[ci as int].header.id;
                let ghost before = seq_count(kids.take(t as int), cid);
                let ghost rest = base(root, cid) + ranked_parents(ns, rank, root, cid, (k + 1) as nat, n as nat);
                proof {
                    lemma_count_take(kids, t as int, cid);
                    assert(before * occ_u + occ_u == (before + 1) * occ_u) by (nonlinear_arith);
                    assert forall|x: int| 0 <= x < n && x != ci as int implies seq_count(kids.take(t + 1), #[trigger] ns[x].header.id)
                        == seq_count(kids.take(t as int), ns[x].header.id) by {
                        lemma_count_take(kids, t as int, ns[x].header.id);
                        assert(ns[x].header.id != cid);
                    }
                }
                if saturate {
                    let next = old.saturating_add(cu);
                    counts.set(ci, next);
                } else {
                    match old.checked_add(cu) {
                        Some(next) => {
                            counts.set(ci, next);
                        },
                        None => {
                            proof {
                                lemma_index_of_node(ns, ci as int);
                                lemma_occurrences_recurrence(ns, rank, root, cid);
                                lemma_ranked_step(ns, rank, root, cid, u as int, n as nat);
                                lemma_ranked_le(ns, rank, root, cid, k as nat, n as nat);
                                lemma_count_prefix_le(kids, t + 1, cid);
                                let m = mult(ns, u as int, cid);
                                let b1 = before + 1;
                                assert(b1 * occ_u <= m * occ_u) by (nonlinear_arith)
                                    requires
                                        b1 <= m,
                                ;
                                assert(old == rest + before * occ_u);
                                assert(cu == occ_u);
                                assert(old + cu > u64::MAX);
                                assert(ranked_parents(ns, rank, root, cid, k as nat, n as nat) == ranked_parents(ns, rank, root, cid, (k + 1) as nat, n as nat) + m * occ_u);
                                assert(occurrences(ns, root, cid) >= rest + m * occ_u);
                                assert(child == cid);
                                assert(b1 * occ_u == before * occ_u + occ_u);
                                assert(occurrences(ns, root, child) > u64::MAX);
                                self.lemma_nodes_view();
                                assert(self.nodes() == ns);
                                assert(self.nodes()[ri as int].header.id == root);
                                assert(!saturate);
                            }
                            return Err(child);
                        },
                    }
                }
                t = t + 1;
            }
            proof {
                assert(kids.take(count as int) =~= kids);
                assert forall|x: int| 0 <= x < n implies #[trigger] counts@[x] == (if saturate {
                    capped(base(root, ns[x].header.id) + ranked_parents(ns, rank, root, ns[x].header.id, k as nat, n as nat))
                } else {
                    base(root, ns[x].header.id) + ranked_parents(ns, rank, root, ns[x].header.id, k as nat, n as nat)
                }) by {
                    lemma_ranked_step(ns, rank, root, ns[x].header.id, u as int, n as nat);
                }
            }
        }
        proof {
            assert forall|x: int| 0 <= x < n implies #[trigger] counts@[x] == (if saturate {
                capped(occurrences(ns, root, ns[x].header.id))
            } else {
                occurrences(ns, root, ns[x].header.id)
            }) by {
                lemma_index_of_node(ns, x);
                lemma_ranked_all(ns, rank, root, ns[x].header.id, n as nat);
                lemma_occurrences_recurrence(ns, rank, root, ns[x].header.id);
            }
        }
        Ok(counts)
    }
}

/// `v` lists the nodes reachable from `root`, in increasing identity order, each with its
/// number of occurrences (capped at `u64::MAX` when `saturate`).
pub open spec fn counted(ns: Seq<super::super::node::Node>, root: NodeId, v: Seq<(NodeId, u64)>, saturate: bool) -> bool {
    &&& forall|t: int|
        0 <= t < v.len() ==> reaches(ns, root, (#[trigger] v[t]).0) && v[t].1 == if saturate {
            capped(occurrences(ns, root, v[t].0))
        } else {
            occurrences(ns, root, v[t].0)
        }
    &&& forall|x: NodeId| reaches(ns, root, x) ==> exists|t: int| 0 <= t < v.len() && (#[trigger] v[t]).0 == x
    &&& forall|a: int, b: int| 0 <= a < b < v.len() ==> (#[trigger] v[a]).0.id() < (#[trigger] v[b]).0.id()
}

impl CatalogSnapshot {
    /// Pairs each reachable node, in identity order, with its count.
    fn reachable_entries(&self, ri: usize, counts: &Vec<u64>, saturate: bool) -> (v: Vec<(NodeId, u64)>)
        requires
            ri < self.nodes().len(),
            counts@.len() == self.nodes().len(),
            forall|x: int|
                0 <= x < self.nodes().len() ==> #[trigger] counts@[x] == if saturate {
                    capped(occurrences(self.nodes(), self.nodes()[ri as int].header.id, self.nodes()[x].header.id))
                } else {
                    occurrences(self.nodes(), self.nodes()[ri as int].header.id, self.nodes()[x].header.id)
                },
        ensures
            counted(self.nodes(), self.nodes()[ri as int].header.id, v@, saturate),
    {
        proof {
            use_type_invariant(self);
            self.lemma_nodes_view();
        }
        let ghost ns = self.nodes@;
        let ghost root = ns[ri as int].header.id;
        let flags = self.reach_flags(ri);
        let mut out: Vec<(NodeId, u64)> = Vec::new();
        let n = self.by_id.len();
        let mut p: usize = 0;
        while p < n
            invariant
                self.well_formed(),
                ns == self.nodes@,
                n == ns.len(),
                ri < n,
                root == ns[ri as int].header.id,
                flags@.len() == n,
                counts@.len() == n,
                forall|i: int| 0 <= i < n ==> (flags@[i] <==> reaches(ns, root, #[trigger] ns[i].header.id)),
                forall|x: int|
                    0 <= x < n ==> #[trigger] counts@[x] == if saturate {
                        capped(occurrences(ns, root, ns[x].header.id))
                    } else {
                        occurrences(ns, root, ns[x].header.id)
                    },
                0 <= p <= n,
                forall|t: int|
                    0 <= t < out@.len() ==> reaches(ns, root, (#[trigger] out@[t]).0) && out@[t].1 == if saturate {
                        capped(occurrences(ns, root, out@[t].0))
                    } else {
                        occurrences(ns, root, out@[t].0)
                    },
                forall|t: int| #![trigger out@[t]] 0 <= t < out@.len() ==> exists|q: int| 0 <= q < p && #[trigger] ns[self.by_id@[q] as int].header.id == out@[t].0,
                forall|q: int| 0 <= q < p && flags@[#[trigger] self.by_id@[q] as int] ==> exists|t: int| 0 <= t < out@.len() && (#[trigger] out@[t]).0 == ns[self.by_id@[q] as int].header.id,
                forall|a: int, b: int| 0 <= a < b < out@.len() ==> (#[trigger] out@[a]).0.id() < (#[trigger] out@[b]).0.id(),
            decreases n - p,
        {
            let i = self.by_id[p];
            if flags[i] {
                let ghost before = out@;
                let id = self.nodes[i].header.id;
                out.push((id, counts[i]));
                proof {
                    assert forall|t: int| 0 <= t < before.len() implies (#[trigger] before[t]).0.id() < id.id() by {
                        let q = choose|q: int| 0 <= q < p && #[trigger] ns[self.by_id@[q] as int].header.id == before[t].0;
                        assert(ns[self.by_id@[q] as int].header.id.id() < ns[self.by_id@[p as int] as int].header.id.id());
                    }
                    assert forall|a: int, b: int| 0 <= a < b < out@.len() implies (#[trigger] out@[a]).0.id() < (#[trigger] out@[b]).0.id() by {
                        assert(out@[a] == before[a]);
                        if b < before.len() {
                            assert(out@[b] == before[b]);
                        }
                    }
                    assert forall|t: int| #![trigger out@[t]] 0 <= t < out@.len() implies exists|q: int| 0 <= q < p + 1 && #[trigger] ns[self.by_id@[q] as int].header.id == out@[t].0 by {
                        if t < before.len() {
                            assert(out@[t] == before[t]);
                            let q = choose|q: int| 0 <= q < p && #[trigger] ns[self.by_id@[q] as int].header.id == before[t].0;
                        } else {
                            assert(ns[self.by_id@[p as int] as int].header.id == out@[t].0);
                        }
                    }
                    assert forall|q: int| 0 <= q < p + 1 && flags@[#[trigger] self.by_id@[q] as int] implies exists|t: int| 0 <= t < out@.len() && (#[trigger] out@[t]).0 == ns[self.by_id@[q] as int].header.id by {
                        if q < p {
                            let w = choose|w: int| 0 <= w < before.len() && (#[trigger] before[w]).0 == ns[self.by_id@[q] as int].header.id;
                            assert(out@[w] == before[w]);
                        } else {
                            assert(out@[before.len() as int].0 == id);
                        }
                    }
                    assert(reaches(ns, root, ns[i as int].header.id));
                    assert forall|t: int|
                        0 <= t < out@.len() implies reaches(ns, root, (#[trigger] out@[t]).0) && out@[t].1 == if saturate {
                            capped(occurrences(ns, root, out@[t].0))
                        } else {
                            occurrences(ns, root, out@[t].0)
                        } by {
                        if t < before.len() {
                            assert(out@[t] == before[t]);
                        } else {
                            assert(out@[t] == (id, counts@[i as int]));
                        }
                    }
                }
            }
            p = p + 1;
        }
        proof {
            assert forall|x: NodeId| reaches(ns, root, x) implies exists|t: int| 0 <= t < out@.len() && (#[trigger] out@[t]).0 == x by {
                let path = choose|path: Seq<NodeId>| #[trigger] is_path(ns, path) && path[0] == root && path.last() == x;
                assert(has_id(ns, path[path.len() - 1]));
                lemma_index_of(ns, x);
                let i = index_of(ns, x);
                assert(listed(self.by_id@, i));
                let q = choose|q: int| 0 <= q < self.by_id@.len() && #[trigger] self.by_id@[q] == i;
                assert(flags@[self.by_id@[q] as int]);
            }
        }
        out
    }

    /// How many times each node reachable from `root` occurs in its expansion, in increasing
    /// identity order; a count that does not fit in `u64` is an error.
    pub fn occurrence_counts(&self, root: NodeId) -> (r: Result<Vec<(NodeId, u64)>, DomainError>)
        ensures
            !has_id(self.nodes(), root) ==> r == Err::<Vec<(NodeId, u64)>, DomainError>(
                DomainError::MissingNode(root),
            ),
            has_id(self.nodes(), root) ==> match r {
                Ok(v) => counted(self.nodes(), root, v@, false),
                Err(e) => e matches DomainError::OccurrenceOverflow { at } && occurrences(self.nodes(), root, at) > u64::MAX,
            },
            has_id(self.nodes(), root) && (forall|x: NodeId| occurrences(self.nodes(), root, x) <= u64::MAX)
                ==> r is Ok,
    {
        proof {
            use_type_invariant(self);
            self.lemma_nodes_view();
        }
        let ri = match find_id(&self.nodes, &self.by_id, root) {
            Some(i) => i,
            None => {
                return Err(DomainError::MissingNode(root));
            },
        };
        match self.path_counts(ri, false) {
            Ok(counts) => Ok(self.reachable_entries(ri, &counts, false)),
            Err(at) => Err(DomainError::OccurrenceOverflow { at }),
        }
    }

    /// Like `occurrence_counts`, with every count capped at `u64::MAX` instead of an error.
    pub fn occurrence_counts_saturating(&self, root: NodeId) -> (r: Result<Vec<(NodeId, u64)>, DomainError>)
        ensures
            !has_id(self.nodes(), root) ==> r == Err::<Vec<(NodeId, u64)>, DomainError>(
                DomainError::MissingNode(root),
            ),
            has_id(self.nodes(), root) ==> (r matches Ok(v) && counted(self.nodes(), root, v@, true)),
    {
        proof {
            use_type_invariant(self);
            self.lemma_nodes_view();
        }
        let ri = match find_id(&self.nodes, &self.by_id, root) {
            Some(i) => i,
            None => {
                return Err(DomainError::MissingNode(root));
            },
        };
        match self.path_counts(ri, true) {
            Ok(counts) => Ok(self.reachable_entries(ri, &counts, true)),
            Err(at) => {
                proof {
                    assert(false);
                }
                Err(DomainError::OccurrenceOverflow { at })
            },
        }
    }
}

proof fn lemma_ranked_none(ns: Seq<super::super::node::Node>, rank: Seq<nat>, root: NodeId, v: NodeId, j: nat)
    requires
        j <= ns.len(),
        forall|i: int| 0 <= i < ns.len() ==> #[trigger] rank[i] < ns.len(),
    ensures
        ranked_parents(ns, rank, root, v, ns.len(), j) == 0,
    decreases j,
{
    if j > 0 {
        lemma_ranked_none(ns, rank, root, v, (j - 1) as nat);
    }
}

} // verus!
