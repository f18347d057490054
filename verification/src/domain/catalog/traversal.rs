//! Depth-first traversals of the catalog graph: the acyclicity check that orders the nodes,
//! and the set of nodes reachable from a root.

use vstd::prelude::*;

use super::super::graph::{
    children_of, has_id, index_of, is_path, lemma_closed_contains_reachable, lemma_extend_path,
    lemma_index_of, lemma_index_of_node, lemma_trivial_path, linked, on_cycle, ranked, reaches,
    refs_closed, unique_ids,
};
use super::super::node::{Node, NodeId};
use super::{child_at, child_count, find_id, finish_order, id_index, listed, CatalogSnapshot};
use super::super::error::DomainError;

verus! {

/// Number of entries of `s` equal to `v`.
pub open spec fn count_of<T>(s: Seq<T>, v: T) -> nat
    decreases s.len(),
{
    if s.len() == 0 {
        0
    } else {
        count_of(s.drop_last(), v) + if s.last() == v {
            1nat
        } else {
            0nat
        }
    }
}

/// Replacing one entry changes the count by what was removed and what was added.
pub proof fn lemma_count_update<T>(s: Seq<T>, i: int, w: T, v: T)
    requires
        0 <= i < s.len(),
    ensures
        count_of(s.update(i, w), v) + (if s[i] == v {
            1int
        } else {
            0int
        }) == count_of(s, v) + (if w == v {
            1int
        } else {
            0int
        }),
    decreases s.len(),
{
    let t = s.update(i, w);
    if i == s.len() - 1 {
        assert(t.drop_last() =~= s.drop_last());
    } else {
        lemma_count_update(s.drop_last(), i, w, v);
        assert(t.drop_last() =~= s.drop_last().update(i, w));
    }
}

/// A count never exceeds the length.
pub proof fn lemma_count_bound<T>(s: Seq<T>, v: T)
    ensures
        count_of(s, v) <= s.len(),
    decreases s.len(),
{
    if s.len() > 0 {
        lemma_count_bound(s.drop_last(), v);
    }
}

/// When every entry is `v`, all of them count.
pub proof fn lemma_count_all<T>(s: Seq<T>, v: T)
    requires
        forall|i: int| 0 <= i < s.len() ==> s[i] == v,
    ensures
        count_of(s, v) == s.len(),
    decreases s.len(),
{
    if s.len() > 0 {
        lemma_count_all(s.drop_last(), v);
    }
}

/// Child `c` of the node at stack entry `k`.
spec fn entry_child(ns: Seq<Node>, st: Seq<(usize, usize)>, k: int, c: int) -> NodeId {
    ns[st[k].0 as int].body.children()[c]
}

/// The node of stack entry `k + 1` is the child last taken from entry `k`.
spec fn stack_link(ns: Seq<Node>, st: Seq<(usize, usize)>, k: int) -> bool {
    &&& st[k].1 >= 1
    &&& st[k].1 <= ns[st[k].0 as int].body.children().len()
    &&& ns[st[k].0 as int].body.children()[st[k].1 - 1] == ns[st[k + 1].0 as int].header.id
}

/// Children not yet taken from the stack entries.
spec fn remaining(ns: Seq<Node>, st: Seq<(usize, usize)>) -> nat
    decreases st.len(),
{
    if st.len() == 0 {
        0
    } else {
        let e = st.last();
        let len = ns[e.0 as int].body.children().len();
        remaining(ns, st.drop_last()) + if e.1 <= len {
            (len - e.1) as nat
        } else {
            0nat
        }
    }
}

/// Finished (black, colour 2) nodes: each has a place in `fin`, and its children are
/// finished before it.
spec fn finished_ok(ns: Seq<Node>, color: Seq<u8>, fin: Seq<usize>, rank: Seq<nat>) -> bool {
    &&& rank.len() == ns.len()
    &&& color.len() == ns.len()
    &&& forall|t: int|
        0 <= t < fin.len() ==> #[trigger] fin[t] < ns.len() && color[fin[t] as int] == 2 && rank[fin[t] as int]
            == t
    &&& forall|i: int|
        0 <= i < ns.len() && #[trigger] color[i] == 2 ==> rank[i] < fin.len() && fin[rank[i] as int] == i
    &&& forall|i: int, c: int|
        0 <= i < ns.len() && color[i] == 2 && 0 <= c < ns[i].body.children().len() ==> color[index_of(
            ns,
            #[trigger] ns[i].body.children()[c],
        )] == 2 && rank[index_of(ns, ns[i].body.children()[c])] < rank[i]
}

/// The stack of grey (colour 1) nodes: each is a child of the one below it, and the children
/// already taken from an entry are finished, but for the one now above it.
spec fn stack_ok(ns: Seq<Node>, color: Seq<u8>, st: Seq<(usize, usize)>) -> bool {
    &&& forall|k: int|
        0 <= k < st.len() ==> (#[trigger] st[k]).0 < ns.len() && color[st[k].0 as int] == 1 && st[k].1
            <= ns[st[k].0 as int].body.children().len()
    &&& forall|i: int|
        0 <= i < ns.len() && #[trigger] color[i] == 1 ==> exists|k: int| 0 <= k < st.len() && (#[trigger] st[k]).0 == i
    &&& forall|k1: int, k2: int| 0 <= k1 < k2 < st.len() ==> (#[trigger] st[k1]).0 != (#[trigger] st[k2]).0
    &&& forall|k: int| 0 <= k < st.len() - 1 ==> #[trigger] stack_link(ns, st, k)
    &&& forall|k: int, c: int|
        0 <= k < st.len() && 0 <= c < st[k].1 && (k == st.len() - 1 || c < st[k].1 - 1) ==> color[index_of(
            ns,
            #[trigger] entry_child(ns, st, k, c),
        )] == 2
}

proof fn lemma_remaining_advance(ns: Seq<Node>, st: Seq<(usize, usize)>, e: (usize, usize))
    requires
        st.len() > 0,
        e.0 == st.last().0,
        e.1 == st.last().1 + 1,
        e.1 <= ns[e.0 as int].body.children().len(),
    ensures
        remaining(ns, st.update(st.len() - 1, e)) < remaining(ns, st),
{
    assert(st.update(st.len() - 1, e).drop_last() =~= st.drop_last());
}

/// The nodes on the stack from entry `k` up, then `child`, form a cycle when `child` is the
/// node at entry `k` and is a child of the top node.
proof fn lemma_stack_cycle(ns: Seq<Node>, color: Seq<u8>, st: Seq<(usize, usize)>, k: int, nc: int, child: NodeId)
    requires
        unique_ids(ns),
        stack_ok(ns, color, st),
        st.len() > 0,
        0 <= k < st.len(),
        ns[st[k].0 as int].header.id == child,
        0 <= nc < ns[st.last().0 as int].body.children().len(),
        ns[st.last().0 as int].body.children()[nc] == child,
    ensures
        on_cycle(ns, child),
{
    let m = st.len() - k;
    let p = Seq::new((m + 1) as nat, |t: int| if t < m { ns[st[k + t].0 as int].header.id } else { child });
    assert forall|t: int| 0 <= t < p.len() implies has_id(ns, #[trigger] p[t]) by {
        if t < m {
            assert(st[k + t].0 < ns.len());
            lemma_index_of_node(ns, st[k + t].0 as int);
        } else {
            assert(st[k].0 < ns.len());
            lemma_index_of_node(ns, st[k].0 as int);
        }
    }
    assert forall|t: int| 0 <= t < p.len() - 1 implies #[trigger] linked(ns, p, t) by {
        let e = st[k + t];
        assert(e.0 < ns.len());
        lemma_index_of_node(ns, e.0 as int);
        assert(children_of(ns, p[t]) == ns[e.0 as int].body.children());
        if t < m - 1 {
            assert(stack_link(ns, st, k + t));
            let c = e.1 - 1;
            assert(ns[e.0 as int].body.children()[c] == p[t + 1]);
        } else {
            assert(k + t == st.len() - 1);
            assert(ns[e.0 as int].body.children()[nc] == p[t + 1]);
        }
    }
    assert(is_path(ns, p));
}

/// Starting a search from a white node keeps the invariants, with the node alone on the stack.
proof fn lemma_start_step(ns: Seq<Node>, color: Seq<u8>, fin: Seq<usize>, rank: Seq<nat>, start: usize)
    requires
        unique_ids(ns),
        refs_closed(ns),
        finished_ok(ns, color, fin, rank),
        0 <= start < ns.len(),
        color[start as int] == 0,
        forall|j: int| 0 <= j < ns.len() ==> #[trigger] color[j] == 0 || color[j] == 2,
    ensures
        finished_ok(ns, color.update(start as int, 1u8), fin, rank),
        stack_ok(ns, color.update(start as int, 1u8), seq![(start, 0usize)]),
{
    let c2 = color.update(start as int, 1u8);
    let st = seq![(start, 0usize)];
    assert forall|i: int| 0 <= i < ns.len() && #[trigger] c2[i] == 1 implies exists|k: int|
        0 <= k < st.len() && (#[trigger] st[k]).0 == i by {
        assert(i == start as int);
        assert(st[0] == (start, 0usize));
    }
    assert forall|i: int, c: int|
        0 <= i < ns.len() && c2[i] == 2 && 0 <= c < ns[i].body.children().len() implies c2[index_of(
        ns,
        #[trigger] ns[i].body.children()[c],
    )] == 2 && rank[index_of(ns, ns[i].body.children()[c])] < rank[i] by {
        assert(color[i] == 2);
        assert(has_id(ns, ns[i].body.children()[c]));
        lemma_index_of(ns, ns[i].body.children()[c]);
    }
    assert forall|t: int| 0 <= t < fin.len() implies #[trigger] fin[t] < ns.len() && c2[fin[t] as int]
        == 2 && rank[fin[t] as int] == t by {
        assert(color[fin[t] as int] == 2);
    }
}

/// Finishing the top node, all of whose children are finished, keeps the invariants.
proof fn lemma_finish_step(
    ns: Seq<Node>,
    color: Seq<u8>,
    st: Seq<(usize, usize)>,
    fin: Seq<usize>,
    rank: Seq<nat>,
)
    requires
        unique_ids(ns),
        refs_closed(ns),
        finished_ok(ns, color, fin, rank),
        stack_ok(ns, color, st),
        st.len() > 0,
        st.last().1 == ns[st.last().0 as int].body.children().len(),
    ensures
        finished_ok(
            ns,
            color.update(st.last().0 as int, 2u8),
            fin.push(st.last().0),
            rank.update(st.last().0 as int, fin.len() as nat),
        ),
        stack_ok(ns, color.update(st.last().0 as int, 2u8), st.drop_last()),
{
    let top = st.len() - 1;
    let i = st.last().0 as int;
    assert(st[top] == st.last());
    assert(0 <= i < ns.len() && color[i] == 1);
    let c2 = color.update(i, 2u8);
    let f2 = fin.push(i as usize);
    let r2 = rank.update(i, fin.len() as nat);
    let s2 = st.drop_last();
    assert forall|t: int| 0 <= t < f2.len() implies #[trigger] f2[t] < ns.len() && c2[f2[t] as int] == 2
        && r2[f2[t] as int] == t by {
        if t < fin.len() {
            assert(fin[t] < ns.len() && color[fin[t] as int] == 2);
            assert(f2[t] == fin[t]);
        }
    }
    assert forall|j: int| 0 <= j < ns.len() && #[trigger] c2[j] == 2 implies r2[j] < f2.len() && f2[r2[j] as int] == j by {
        if j != i {
            assert(color[j] == 2);
        }
    }
    assert forall|j: int, c: int|
        0 <= j < ns.len() && c2[j] == 2 && 0 <= c < ns[j].body.children().len() implies c2[index_of(
        ns,
        #[trigger] ns[j].body.children()[c],
    )] == 2 && r2[index_of(ns, ns[j].body.children()[c])] < r2[j] by {
        let x = index_of(ns, ns[j].body.children()[c]);
        assert(has_id(ns, ns[j].body.children()[c]));
        lemma_index_of(ns, ns[j].body.children()[c]);
        if j == i {
            assert(entry_child(ns, st, top, c) == ns[j].body.children()[c]);
            assert(color[x] == 2);
        } else {
            assert(color[j] == 2);
            assert(color[x] == 2);
        }
        assert(x != i);
        assert(rank[x] < fin.len());
    }
    assert forall|k: int| 0 <= k < s2.len() implies (#[trigger] s2[k]).0 < ns.len() && c2[s2[k].0 as int] == 1
        && s2[k].1 <= ns[s2[k].0 as int].body.children().len() by {
        assert(s2[k] == st[k]);
        assert(st[k].0 != st[top].0);
    }
    assert forall|j: int| 0 <= j < ns.len() && #[trigger] c2[j] == 1 implies exists|k: int|
        0 <= k < s2.len() && (#[trigger] s2[k]).0 == j by {
        assert(color[j] == 1);
        let k = choose|k: int| 0 <= k < st.len() && (#[trigger] st[k]).0 == j;
        assert(k != top);
        assert(s2[k] == st[k]);
    }
    assert forall|k1: int, k2: int| 0 <= k1 < k2 < s2.len() implies (#[trigger] s2[k1]).0 != (#[trigger] s2[k2]).0 by {
        assert(s2[k1] == st[k1] && s2[k2] == st[k2]);
    }
    assert forall|k: int| 0 <= k < s2.len() - 1 implies #[trigger] stack_link(ns, s2, k) by {
        assert(stack_link(ns, st, k));
        assert(s2[k] == st[k] && s2[k + 1] == st[k + 1]);
    }
    assert forall|k: int, c: int|
        0 <= k < s2.len() && 0 <= c < s2[k].1 && (k == s2.len() - 1 || c < s2[k].1 - 1) implies c2[index_of(
        ns,
        #[trigger] entry_child(ns, s2, k, c),
    )] == 2 by {
        assert(s2[k] == st[k]);
        assert(entry_child(ns, s2, k, c) == entry_child(ns, st, k, c));
        assert(st[k].0 < ns.len());
        assert(has_id(ns, ns[st[k].0 as int].body.children()[c]));
        lemma_index_of(ns, entry_child(ns, st, k, c));
        if k == s2.len() - 1 && c == s2[k].1 - 1 {
            assert(stack_link(ns, st, k));
            assert(st[k + 1] == st.last());
            lemma_index_of_node(ns, i);
        } else {
            assert(color[index_of(ns, entry_child(ns, st, k, c))] == 2);
        }
    }
}

/// Taking a finished child of the top node keeps the stack invariant.
proof fn lemma_advance_step(ns: Seq<Node>, color: Seq<u8>, st: Seq<(usize, usize)>, ci: int)
    requires
        unique_ids(ns),
        refs_closed(ns),
        stack_ok(ns, color, st),
        st.len() > 0,
        st.last().1 < ns[st.last().0 as int].body.children().len(),
        st.last().1 < usize::MAX,
        0 <= ci < ns.len(),
        ci == index_of(ns, ns[st.last().0 as int].body.children()[st.last().1 as int]),
        color[ci] == 2,
    ensures
        stack_ok(ns, color, st.update(st.len() - 1, (st.last().0, (st.last().1 + 1) as usize))),
{
    let top = st.len() - 1;
    let e = st.last();
    assert(st[top] == e);
    let s2 = st.update(top, (e.0, (e.1 + 1) as usize));
    assert forall|k: int| 0 <= k < s2.len() implies (#[trigger] s2[k]).0 < ns.len() && color[s2[k].0 as int] == 1
        && s2[k].1 <= ns[s2[k].0 as int].body.children().len() by {
        assert(st[k].0 < ns.len());
    }
    assert forall|j: int| 0 <= j < ns.len() && #[trigger] color[j] == 1 implies exists|k: int|
        0 <= k < s2.len() && (#[trigger] s2[k]).0 == j by {
        let k = choose|k: int| 0 <= k < st.len() && (#[trigger] st[k]).0 == j;
        assert(s2[k].0 == st[k].0);
    }
    assert forall|k1: int, k2: int| 0 <= k1 < k2 < s2.len() implies (#[trigger] s2[k1]).0 != (#[trigger] s2[k2]).0 by {
        assert(s2[k1].0 == st[k1].0 && s2[k2].0 == st[k2].0);
    }
    assert forall|k: int| 0 <= k < s2.len() - 1 implies #[trigger] stack_link(ns, s2, k) by {
        assert(stack_link(ns, st, k));
        assert(s2[k] == st[k] && s2[k + 1].0 == st[k + 1].0);
    }
    assert forall|k: int, c: int|
        0 <= k < s2.len() && 0 <= c < s2[k].1 && (k == s2.len() - 1 || c < s2[k].1 - 1) implies color[index_of(
        ns,
        #[trigger] entry_child(ns, s2, k, c),
    )] == 2 by {
        assert(s2[k].0 == st[k].0);
        assert(entry_child(ns, s2, k, c) == entry_child(ns, st, k, c));
        if k == top && c == e.1 {
        } else {
            assert(color[index_of(ns, entry_child(ns, st, k, c))] == 2);
        }
    }
}

/// Taking a white child of the top node and pushing it keeps the invariants.
proof fn lemma_push_step(
    ns: Seq<Node>,
    color: Seq<u8>,
    st: Seq<(usize, usize)>,
    fin: Seq<usize>,
    rank: Seq<nat>,
    ci: usize,
)
    requires
        unique_ids(ns),
        refs_closed(ns),
        finished_ok(ns, color, fin, rank),
        stack_ok(ns, color, st),
        st.len() > 0,
        st.last().1 < ns[st.last().0 as int].body.children().len(),
        st.last().1 < usize::MAX,
        0 <= ci < ns.len(),
        ns[ci as int].header.id == ns[st.last().0 as int].body.children()[st.last().1 as int],
        color[ci as int] == 0,
    ensures
        finished_ok(ns, color.update(ci as int, 1u8), fin, rank),
        stack_ok(
            ns,
            color.update(ci as int, 1u8),
            st.update(st.len() - 1, (st.last().0, (st.last().1 + 1) as usize)).push((ci, 0usize)),
        ),
{
    let top = st.len() - 1;
    let e = st.last();
    assert(st[top] == e);
    let c2 = color.update(ci as int, 1u8);
    let s1 = st.update(top, (e.0, (e.1 + 1) as usize));
    let s2 = s1.push((ci, 0usize));
    assert forall|t: int| 0 <= t < fin.len() implies #[trigger] fin[t] < ns.len() && c2[fin[t] as int] == 2
        && rank[fin[t] as int] == t by {
        assert(color[fin[t] as int] == 2);
    }
    assert forall|j: int| 0 <= j < ns.len() && #[trigger] c2[j] == 2 implies rank[j] < fin.len() && fin[rank[j] as int] == j by {
        assert(color[j] == 2);
    }
    assert forall|j: int, c: int|
        0 <= j < ns.len() && c2[j] == 2 && 0 <= c < ns[j].body.children().len() implies c2[index_of(
        ns,
        #[trigger] ns[j].body.children()[c],
    )] == 2 && rank[index_of(ns, ns[j].body.children()[c])] < rank[j] by {
        assert(color[j] == 2);
        assert(has_id(ns, ns[j].body.children()[c]));
        lemma_index_of(ns, ns[j].body.children()[c]);
        assert(color[index_of(ns, ns[j].body.children()[c])] == 2);
    }
    assert forall|k: int| 0 <= k < s2.len() implies (#[trigger] s2[k]).0 < ns.len() && c2[s2[k].0 as int] == 1
        && s2[k].1 <= ns[s2[k].0 as int].body.children().len() by {
        if k < st.len() {
            assert(st[k].0 < ns.len() && color[st[k].0 as int] == 1);
            assert(s2[k].0 == st[k].0);
        } else {
            assert(s2[k] == (ci, 0usize));
        }
    }
    assert forall|j: int| 0 <= j < ns.len() && #[trigger] c2[j] == 1 implies exists|k: int|
        0 <= k < s2.len() && (#[trigger] s2[k]).0 == j by {
        if j == ci as int {
            assert(s2[s1.len() as int] == (ci, 0usize));
        } else {
            let k = choose|k: int| 0 <= k < st.len() && (#[trigger] st[k]).0 == j;
            assert(s2[k].0 == st[k].0);
        }
    }
    assert forall|k1: int, k2: int| 0 <= k1 < k2 < s2.len() implies (#[trigger] s2[k1]).0 != (#[trigger] s2[k2]).0 by {
        assert(s2[k1].0 == st[k1].0);
        if k2 < st.len() {
            assert(s2[k2].0 == st[k2].0);
        } else {
            assert(s2[k2] == (ci, 0usize));
            assert(color[st[k1].0 as int] == 1);
        }
    }
    assert forall|k: int| 0 <= k < s2.len() - 1 implies #[trigger] stack_link(ns, s2, k) by {
        if k < top {
            assert(stack_link(ns, st, k));
            assert(s2[k] == st[k] && s2[k + 1].0 == st[k + 1].0);
        } else {
            assert(k == top);
            assert(s2[k].0 == e.0 && s2[k].1 == e.1 + 1);
            assert(s2[k + 1] == (ci, 0usize));
            assert(ns[e.0 as int].body.children()[e.1 as int] == ns[ci as int].header.id);
            assert(ns[s2[k].0 as int].body.children()[s2[k].1 - 1] == ns[s2[k + 1].0 as int].header.id);
        }
    }
    assert forall|k: int, c: int|
        0 <= k < s2.len() && 0 <= c < s2[k].1 && (k == s2.len() - 1 || c < s2[k].1 - 1) implies c2[index_of(
        ns,
        #[trigger] entry_child(ns, s2, k, c),
    )] == 2 by {
        assert(k < st.len());
        assert(s2[k].0 == st[k].0);
        assert(entry_child(ns, s2, k, c) == entry_child(ns, st, k, c));
        assert(st[k].0 < ns.len());
        assert(has_id(ns, ns[st[k].0 as int].body.children()[c]));
        lemma_index_of(ns, entry_child(ns, st, k, c));
        assert(color[index_of(ns, entry_child(ns, st, k, c))] == 2);
    }
}

/// Checks that the graph has no cycle by depth-first search, nodes taken by identity and
/// children in order. On success returns the nodes in finishing order, where every child
/// finishes before its parents; otherwise a node on a cycle.
pub(crate) fn acyclic_order(nodes: &Vec<Node>, by_id: &Vec<usize>) -> (r: Result<
    (Vec<usize>, Ghost<Seq<nat>>),
    NodeId,
>)
    requires
        unique_ids(nodes@),
        refs_closed(nodes@),
        id_index(nodes@, by_id@),
    ensures
        match r {
            Ok((fin, rank)) => ranked(nodes@, rank@) && finish_order(fin@, rank@, nodes@.len()),
            Err(at) => on_cycle(nodes@, at),
        },
{
    let n = nodes.len();
    let mut color: Vec<u8> = Vec::new();
    let mut i: usize = 0;
    while i < n
        invariant
            0 <= i <= n,
            n == nodes@.len(),
            color@.len() == i,
            forall|j: int| 0 <= j < i ==> #[trigger] color@[j] == 0,
        decreases n - i,
    {
        color.push(0);
        i = i + 1;
    }
    let mut fin: Vec<usize> = Vec::new();
    let ghost mut rank: Seq<nat> = Seq::new(n as nat, |j: int| 0nat);
    proof {
        assert(color@ =~= Seq::new(n as nat, |j: int| 0u8));
        lemma_count_all(color@, 0u8);
        if count_of(color@, 2u8) > 0 {
            lemma_count_all(color@, 0u8);
        }
        lemma_count_zero(color@, 2u8);
    }
    let mut q: usize = 0;
    while q < n
        invariant
            n == nodes@.len(),
            n == by_id@.len(),
            unique_ids(nodes@),
            refs_closed(nodes@),
            id_index(nodes@, by_id@),
            0 <= q <= n,
            forall|j: int| 0 <= j < n ==> #[trigger] color@[j] == 0 || color@[j] == 2,
            finished_ok(nodes@, color@, fin@, rank),
            fin@.len() == count_of(color@, 2u8),
            forall|p: int| 0 <= p < q ==> color@[#[trigger] by_id@[p] as int] == 2,
        decreases n - q,
    {
        let start = by_id[q];
        if color[start] == 0 {
            proof {
                lemma_count_update(color@, start as int, 1u8, 0u8);
                lemma_count_update(color@, start as int, 1u8, 2u8);
            }
            proof {
                lemma_start_step(nodes@, color@, fin@, rank, start);
            }
            color.set(start, 1);
            let mut stack: Vec<(usize, usize)> = Vec::new();
            stack.push((start, 0));
            proof {
                assert(stack@ =~= seq![(start, 0usize)]);
            }
            while stack.len() > 0
                invariant
                    n == nodes@.len(),
                    n == by_id@.len(),
                    unique_ids(nodes@),
                    refs_closed(nodes@),
                    id_index(nodes@, by_id@),
                    0 <= q < n,
                    start == by_id@[q as int],
                    color@[start as int] != 0,
                    forall|j: int| 0 <= j < n ==> #[trigger] color@[j] <= 2,
                    finished_ok(nodes@, color@, fin@, rank),
                    stack_ok(nodes@, color@, stack@),
                    fin@.len() == count_of(color@, 2u8),
                    forall|p: int| 0 <= p < q ==> color@[#[trigger] by_id@[p] as int] == 2,
                decreases count_of(color@, 0u8), stack@.len(), remaining(nodes@, stack@),
            {
                let top = stack.len() - 1;
                let entry = stack[top];
                let node_index = entry.0;
                let next = entry.1;
                let count = child_count(&nodes[node_index]);
                if next == count {
                    proof {
                        assert(stack@.last() == entry);
                        lemma_finish_step(nodes@, color@, stack@, fin@, rank);
                        lemma_count_update(color@, node_index as int, 2u8, 2u8);
                        lemma_count_update(color@, node_index as int, 2u8, 0u8);
                    }
                    color.set(node_index, 2);
                    proof {
                        rank = rank.update(node_index as int, fin@.len() as nat);
                    }
                    fin.push(node_index);
                    let ghost before_pop = stack@;
                    stack.pop();
                    proof {
                        assert(stack@ =~= before_pop.drop_last());
                    }
                } else {
                    let child = child_at(&nodes[node_index], next);
                    let ghost old_stack = stack@;
                    proof {
                        lemma_remaining_advance(nodes@, stack@, (node_index, (next + 1) as usize));
                    }
                    stack.set(top, (node_index, next + 1));
                    let child_index = match find_id(nodes, by_id, child) {
                        Some(x) => x,
                        None => {
                            proof {
                                assert(has_id(nodes@, nodes@[node_index as int].body.children()[next as int]));
                            }
                            return Err(child);
                        },
                    };
                    let shade = color[child_index];
                    if shade == 1 {
                        proof {
                            let k = choose|k: int| 0 <= k < old_stack.len() && (#[trigger] old_stack[k]).0 == child_index;
                            lemma_stack_cycle(nodes@, color@, old_stack, k, next as int, child);
                        }
                        return Err(child);
                    } else if shade == 0 {
                        proof {
                            assert(old_stack.last() == entry);
                            lemma_push_step(nodes@, color@, old_stack, fin@, rank, child_index);
                            lemma_count_update(color@, child_index as int, 1u8, 0u8);
                            lemma_count_update(color@, child_index as int, 1u8, 2u8);
                        }
                        color.set(child_index, 1);
                        stack.push((child_index, 0));
                    } else {
                        proof {
                            assert(old_stack.last() == entry);
                            lemma_advance_step(nodes@, color@, old_stack, child_index as int);
                        }
                    }
                }
            }
        }
        q = q + 1;
    }
    proof {
        assert forall|j: int| 0 <= j < n implies #[trigger] color@[j] == 2 by {
            assert(super::listed(by_id@, j));
            let p = choose|p: int| 0 <= p < by_id@.len() && #[trigger] by_id@[p] == j;
        }
        assert forall|j: int| 0 <= j < color@.len() implies color@[j] == 2u8 by {
            assert(color@[j] == 2);
        }
        lemma_count_all(color@, 2u8);
        assert(fin@.len() == n);
        assert forall|i: int, c: int|
            0 <= i < nodes@.len() && 0 <= c < nodes@[i].body.children().len() implies rank[index_of(
            nodes@,
            #[trigger] nodes@[i].body.children()[c],
        )] < rank[i] by {
            assert(color@[i] == 2);
        }
        assert forall|i: int| 0 <= i < nodes@.len() implies #[trigger] rank[i] < nodes@.len() by {
            assert(color@[i] == 2);
        }
        assert(ranked(nodes@, rank));
        assert forall|t: int| 0 <= t < fin@.len() implies #[trigger] fin@[t] < n && rank[fin@[t] as int] == t by {
        }
        assert forall|i: int| 0 <= i < n implies #[trigger] rank[i] < fin@.len() && fin@[rank[i] as int] == i by {
            assert(color@[i] == 2);
        }
        assert(finish_order(fin@, rank, n as nat));
    }
    Ok((fin, Ghost(rank)))
}

proof fn lemma_count_zero<T>(s: Seq<T>, v: T)
    requires
        forall|i: int| 0 <= i < s.len() ==> s[i] != v,
    ensures
        count_of(s, v) == 0,
    decreases s.len(),
{
    if s.len() > 0 {
        lemma_count_zero(s.drop_last(), v);
    }
}


/// `c` cannot become a child of `parent`: it names no node, or it reaches `parent`.
pub open spec fn replacement_blocked(ns: Seq<Node>, parent: NodeId, c: NodeId) -> bool {
    !has_id(ns, c) || reaches(ns, c, parent)
}

impl CatalogSnapshot {
    /// Marks the nodes reachable from the node at position `root`.
    pub(crate) fn reach_flags(&self, root: usize) -> (flags: Vec<bool>)
        requires
            root < self.nodes().len(),
        ensures
            flags@.len() == self.nodes().len(),
            forall|i: int|
                0 <= i < self.nodes().len() ==> (flags@[i] <==> reaches(
                    self.nodes(),
                    self.nodes()[root as int].header.id,
                    #[trigger] self.nodes()[i].header.id,
                )),
    {
        proof {
            use_type_invariant(self);
            self.lemma_nodes_view();
        }
        let ghost ns = self.nodes@;
        let n = self.nodes.len();
        let ghost rid = ns[root as int].header.id;
        let mut seen: Vec<bool> = Vec::new();
        let mut i: usize = 0;
        while i < n
            invariant
                0 <= i <= n,
                seen@.len() == i,
                forall|j: int| 0 <= j < i ==> !#[trigger] seen@[j],
            decreases n - i,
        {
            seen.push(false);
            i = i + 1;
        }
        proof {
            lemma_index_of_node(ns, root as int);
            lemma_trivial_path(ns, rid);
        }
        let mut pending: Vec<usize> = Vec::new();
        pending.push(root);
        assert(pending@[0] == root);
        while pending.len() > 0
            invariant
                self.well_formed(),
                ns == self.nodes@,
                n == ns.len(),
                root < n,
                rid == ns[root as int].header.id,
                seen@.len() == n,
                forall|j: int| 0 <= j < n && #[trigger] seen@[j] ==> reaches(ns, rid, ns[j].header.id),
                forall|k: int| 0 <= k < pending@.len() ==> #[trigger] pending@[k] < n && reaches(ns, rid, ns[pending@[k] as int].header.id),
                forall|j: int, c: int|
                    0 <= j < n && seen@[j] && 0 <= c < ns[j].body.children().len() ==> seen@[index_of(
                        ns,
                        #[trigger] ns[j].body.children()[c],
                    )] || pending@.contains(index_of(ns, ns[j].body.children()[c]) as usize),
                seen@[root as int] || pending@.contains(root),
            decreases count_of(seen@, false), pending@.len(),
        {
            let ghost before = pending@;
            let j = match pending.pop() {
                Some(x) => x,
                None => {
                    proof {
                        assert(false);
                    }
                    0
                },
            };
            proof {
                assert(before.last() == j);
                assert(pending@ =~= before.drop_last());
                assert(j < n && reaches(ns, rid, ns[j as int].header.id)) by {
                    assert(before[before.len() - 1] == j);
                }
            }
            if !seen[j] {
                let count = child_count(&self.nodes[j]);
                proof {
                    assert forall|j2: int, c2: int|
                        0 <= j2 < n && seen@[j2] && 0 <= c2 < ns[j2].body.children().len() implies seen@[index_of(
                            ns,
                            #[trigger] ns[j2].body.children()[c2],
                        )] || pending@.contains(index_of(ns, ns[j2].body.children()[c2]) as usize)
                            || index_of(ns, ns[j2].body.children()[c2]) == j as int by {
                        let x = index_of(ns, ns[j2].body.children()[c2]);
                        assert(has_id(ns, ns[j2].body.children()[c2]));
                        lemma_index_of(ns, ns[j2].body.children()[c2]);
                        if !seen@[x] {
                            let w = choose|w: int| 0 <= w < before.len() && before[w] == x as usize;
                            if w < before.len() - 1 {
                                assert(pending@[w] == before[w]);
                            }
                        }
                    }
                }
                let mut c: usize = 0;
                while c < count
                    invariant
                        self.well_formed(),
                        ns == self.nodes@,
                        n == ns.len(),
                        j < n,
                        !seen@[j as int],
                        count == ns[j as int].body.children().len(),
                        0 <= c <= count,
                        reaches(ns, rid, ns[j as int].header.id),
                        seen@.len() == n,
                        forall|k: int| 0 <= k < pending@.len() ==> #[trigger] pending@[k] < n && reaches(ns, rid, ns[pending@[k] as int].header.id),
                        forall|c2: int| 0 <= c2 < c ==> pending@.contains(index_of(ns, #[trigger] ns[j as int].body.children()[c2]) as usize),
                        forall|j2: int, c2: int|
                            0 <= j2 < n && seen@[j2] && 0 <= c2 < ns[j2].body.children().len() ==> seen@[index_of(
                                ns,
                                #[trigger] ns[j2].body.children()[c2],
                            )] || pending@.contains(index_of(ns, ns[j2].body.children()[c2]) as usize)
                                || index_of(ns, ns[j2].body.children()[c2]) == j as int,
                        before.len() >= 1,
                        before.last() == j,
                        before.drop_last() =~= pending@.take(before.len() - 1),
                        pending@.len() >= before.len() - 1,
                    decreases count - c,
                {
                    let child = child_at(&self.nodes[j], c);
                    let ci = match find_id(&self.nodes, &self.by_id, child) {
                        Some(x) => x,
                        None => {
                            proof {
                                assert(has_id(ns, ns[j as int].body.children()[c as int]));
                            }
                            j
                        },
                    };
                    proof {
                        lemma_index_of_node(ns, j as int);
                        assert(children_of(ns, ns[j as int].header.id).contains(child)) by {
                            assert(children_of(ns, ns[j as int].header.id)[c as int] == child);
                        }
                        lemma_extend_path(ns, rid, ns[j as int].header.id, child);
                    }
                    let ghost mid = pending@;
                    pending.push(ci);
                    proof {
                        assert forall|c2: int| 0 <= c2 < c + 1 implies pending@.contains(index_of(ns, #[trigger] ns[j as int].body.children()[c2]) as usize) by {
                            if c2 < c {
                                let w = choose|w: int| 0 <= w < mid.len() && mid[w] == index_of(ns, ns[j as int].body.children()[c2]) as usize;
                                assert(pending@[w] == mid[w]);
                            } else {
                                assert(pending@[mid.len() as int] == ci);
                            }
                        }
                        assert forall|j2: int, c2: int|
                            0 <= j2 < n && seen@[j2] && 0 <= c2 < ns[j2].body.children().len() implies seen@[index_of(
                                ns,
                                #[trigger] ns[j2].body.children()[c2],
                            )] || pending@.contains(index_of(ns, ns[j2].body.children()[c2]) as usize)
                                || index_of(ns, ns[j2].body.children()[c2]) == j as int by {
                            let x = index_of(ns, ns[j2].body.children()[c2]) as usize;
                            if !seen@[x as int] && x as int != j as int {
                                let w = choose|w: int| 0 <= w < mid.len() && mid[w] == x;
                                assert(pending@[w] == mid[w]);
                            }
                        }
                        assert forall|w: int| 0 <= w < before.len() - 1 implies #[trigger] pending@.take(before.len() - 1)[w] == mid.take(before.len() - 1)[w] by {
                            assert(pending@[w] == mid[w]);
                        }
                        assert(pending@.take(before.len() - 1) =~= mid.take(before.len() - 1));
                    }
                    c = c + 1;
                }
                proof {
                    lemma_count_update(seen@, j as int, true, false);
                }
                let ghost s0 = seen@;
                seen.set(j, true);
                proof {
                    assert forall|j2: int, c2: int|
                        0 <= j2 < n && seen@[j2] && 0 <= c2 < ns[j2].body.children().len() implies seen@[index_of(
                            ns,
                            #[trigger] ns[j2].body.children()[c2],
                        )] || pending@.contains(index_of(ns, ns[j2].body.children()[c2]) as usize) by {
                        let x = index_of(ns, ns[j2].body.children()[c2]);
                        if j2 == j as int {
                            assert(pending@.contains(x as usize));
                        } else {
                            assert(s0[j2]);
                            if !s0[x] && x != j as int {
                                assert(pending@.contains(x as usize));
                            }
                        }
                    }
                    if !seen@[root as int] {
                        let w = choose|w: int| 0 <= w < before.len() && before[w] == root;
                        if w < before.len() - 1 {
                            assert(before.drop_last()[w] == before[w]);
                            assert(pending@.take(before.len() - 1)[w] == pending@[w]);
                        }
                    }
                }
            } else {
                proof {
                    assert forall|j2: int, c2: int|
                        0 <= j2 < n && seen@[j2] && 0 <= c2 < ns[j2].body.children().len() implies seen@[index_of(
                            ns,
                            #[trigger] ns[j2].body.children()[c2],
                        )] || pending@.contains(index_of(ns, ns[j2].body.children()[c2]) as usize) by {
                        let x = index_of(ns, ns[j2].body.children()[c2]) as usize;
                        if !seen@[x as int] {
                            let w = choose|w: int| 0 <= w < before.len() && before[w] == x;
                            if w < before.len() - 1 {
                                assert(pending@[w] == before[w]);
                            }
                        }
                    }
                    if !seen@[root as int] {
                        let w = choose|w: int| 0 <= w < before.len() && before[w] == root;
                        if w < before.len() - 1 {
                            assert(pending@[w] == before[w]);
                        }
                    }
                }
            }
        }
        proof {
            let inside = |x: NodeId| has_id(ns, x) && seen@[index_of(ns, x)];
            assert forall|x: NodeId, y: NodeId|
                inside(x) && has_id(ns, x) && #[trigger] children_of(ns, x).contains(y) implies #[trigger] inside(y) by {
                lemma_index_of(ns, x);
                let jx = index_of(ns, x);
                let c = choose|c: int| 0 <= c < children_of(ns, x).len() && children_of(ns, x)[c] == y;
                assert(ns[jx].body.children()[c] == y);
                assert(has_id(ns, ns[jx].body.children()[c]));
            }
            assert forall|i: int| 0 <= i < n implies (seen@[i] <==> reaches(ns, rid, #[trigger] ns[i].header.id)) by {
                if reaches(ns, rid, ns[i].header.id) {
                    lemma_index_of_node(ns, i);
                    lemma_closed_contains_reachable(ns, inside, rid, ns[i].header.id);
                }
            }
        }
        seen
    }
}

impl CatalogSnapshot {
    /// The identities reachable from `root`, the root included, in increasing order.
    pub fn reachable(&self, root: NodeId) -> (r: Result<Vec<NodeId>, DomainError>)
        ensures
            !has_id(self.nodes(), root) ==> r == Err::<Vec<NodeId>, DomainError>(
                DomainError::MissingNode(root),
            ),
            has_id(self.nodes(), root) ==> (r matches Ok(v) && (forall|t: int|
                0 <= t < v@.len() ==> reaches(self.nodes(), root, #[trigger] v@[t])) && (forall|x: NodeId|
                reaches(self.nodes(), root, x) ==> #[trigger] v@.contains(x)) && (forall|a: int, b: int|
                0 <= a < b < v@.len() ==> (#[trigger] v@[a]).id() < (#[trigger] v@[b]).id())),
    {
        proof {
            use_type_invariant(self);
            self.lemma_nodes_view();
        }
        let ghost ns = self.nodes@;
        let ri = match find_id(&self.nodes, &self.by_id, root) {
            Some(i) => i,
            None => {
                return Err(DomainError::MissingNode(root));
            },
        };
        let flags = self.reach_flags(ri);
        let mut out: Vec<NodeId> = Vec::new();
        let mut p: usize = 0;
        let n = self.by_id.len();
        while p < n
            invariant
                self.well_formed(),
                ns == self.nodes@,
                n == ns.len(),
                ri < n,
                ns[ri as int].header.id == root,
                flags@.len() == n,
                forall|i: int| 0 <= i < n ==> (flags@[i] <==> reaches(ns, root, #[trigger] ns[i].header.id)),
                0 <= p <= n,
                forall|t: int| 0 <= t < out@.len() ==> reaches(ns, root, #[trigger] out@[t]),
                forall|t: int| #![trigger out@[t]] 0 <= t < out@.len() ==> exists|q: int| 0 <= q < p && #[trigger] ns[self.by_id@[q] as int].header.id == out@[t],
                forall|q: int| 0 <= q < p && flags@[#[trigger] self.by_id@[q] as int] ==> out@.contains(ns[self.by_id@[q] as int].header.id),
                forall|a: int, b: int| 0 <= a < b < out@.len() ==> (#[trigger] out@[a]).id() < (#[trigger] out@[b]).id(),
            decreases n - p,
        {
            let i = self.by_id[p];
            if flags[i] {
                let ghost before = out@;
                let id = self.nodes[i].header.id;
                out.push(id);
                proof {
                    assert forall|t: int| 0 <= t < before.len() implies (#[trigger] before[t]).id() < id.id() by {
                        let q = choose|q: int| 0 <= q < p && #[trigger] ns[self.by_id@[q] as int].header.id == before[t];
                        assert(ns[self.by_id@[q] as int].header.id.id() < ns[self.by_id@[p as int] as int].header.id.id());
                    }
                    assert forall|a: int, b: int| 0 <= a < b < out@.len() implies (#[trigger] out@[a]).id() < (#[trigger] out@[b]).id() by {
                        if b < before.len() {
                            assert(out@[a] == before[a] && out@[b] == before[b]);
                        } else {
                            assert(out@[a] == before[a]);
                        }
                    }
                    assert forall|t: int| #![trigger out@[t]] 0 <= t < out@.len() implies exists|q: int| 0 <= q < p + 1 && #[trigger] ns[self.by_id@[q] as int].header.id == out@[t] by {
                        if t < before.len() {
                            assert(out@[t] == before[t]);
                            let q = choose|q: int| 0 <= q < p && #[trigger] ns[self.by_id@[q] as int].header.id == before[t];
                        } else {
                            assert(ns[self.by_id@[p as int] as int].header.id == out@[t]);
                        }
                    }
                    assert forall|q: int| 0 <= q < p + 1 && flags@[#[trigger] self.by_id@[q] as int] implies out@.contains(ns[self.by_id@[q] as int].header.id) by {
                        if q < p {
                            let w = choose|w: int| 0 <= w < before.len() && before[w] == ns[self.by_id@[q] as int].header.id;
                            assert(out@[w] == before[w]);
                        } else {
                            assert(out@[before.len() as int] == id);
                        }
                    }
                    assert(reaches(ns, root, ns[i as int].header.id));
                    assert forall|t: int| 0 <= t < out@.len() implies reaches(ns, root, #[trigger] out@[t]) by {
                        if t < before.len() {
                            assert(out@[t] == before[t]);
                        }
                    }
                }
            }
            p = p + 1;
        }
        proof {
            assert forall|x: NodeId| reaches(ns, root, x) implies #[trigger] out@.contains(x) by {
                let path = choose|path: Seq<NodeId>| #[trigger] is_path(ns, path) && path[0] == root && path.last() == x;
                assert(has_id(ns, path[path.len() - 1]));
                lemma_index_of(ns, x);
                let i = index_of(ns, x);
                assert(listed(self.by_id@, i));
                let q = choose|q: int| 0 <= q < self.by_id@.len() && #[trigger] self.by_id@[q] == i;
                assert(flags@[self.by_id@[q] as int]);
            }
        }
        Ok(out)
    }

    /// Whether `target` can be reached from `root`.
    pub fn is_reachable(&self, root: NodeId, target: NodeId) -> (r: Result<bool, DomainError>)
        ensures
            !has_id(self.nodes(), root) ==> r == Err::<bool, DomainError>(DomainError::MissingNode(root)),
            has_id(self.nodes(), root) ==> r == Ok::<bool, DomainError>(reaches(self.nodes(), root, target)),
    {
        proof {
            use_type_invariant(self);
            self.lemma_nodes_view();
        }
        let ghost ns = self.nodes@;
        let ri = match find_id(&self.nodes, &self.by_id, root) {
            Some(i) => i,
            None => {
                return Err(DomainError::MissingNode(root));
            },
        };
        let flags = self.reach_flags(ri);
        match find_id(&self.nodes, &self.by_id, target) {
            Some(t) => Ok(flags[t]),
            None => {
                proof {
                    if reaches(ns, root, target) {
                        let path = choose|path: Seq<NodeId>| #[trigger] is_path(ns, path) && path[0] == root && path.last() == target;
                        assert(has_id(ns, path[path.len() - 1]));
                    }
                }
                Ok(false)
            },
        }
    }

    /// Checks, without changing the catalog, that `parent` could take `children` as its
    /// children: the parent must exist, the list must not be empty, and each child in turn
    /// must exist and must not reach the parent.
    pub fn validate_replacement(&self, parent: NodeId, children: &[NodeId]) -> (r: Result<(), DomainError>)
        ensures
            !has_id(self.nodes(), parent) ==> r == Err::<(), DomainError>(DomainError::MissingNode(parent)),
            has_id(self.nodes(), parent) && children@.len() == 0 ==> r == Err::<(), DomainError>(
                DomainError::EmptyChildren,
            ),
            has_id(self.nodes(), parent) && children@.len() > 0 && (forall|k: int|
                0 <= k < children@.len() ==> !replacement_blocked(self.nodes(), parent, #[trigger] children@[k]))
                ==> r is Ok,
            has_id(self.nodes(), parent) && children@.len() > 0 && (exists|k: int|
                0 <= k < children@.len() && replacement_blocked(self.nodes(), parent, #[trigger] children@[k]))
                ==> exists|k: int|
                0 <= k < children@.len() && replacement_blocked(self.nodes(), parent, #[trigger] children@[k])
                    && (forall|j: int| 0 <= j < k ==> !replacement_blocked(self.nodes(), parent, #[trigger] children@[j]))
                    && r == Err::<(), DomainError>(if !has_id(self.nodes(), children@[k]) {
                    DomainError::MissingNode(children@[k])
                } else {
                    DomainError::CycleDetected { at: parent }
                }),
    {
        proof {
            use_type_invariant(self);
            self.lemma_nodes_view();
        }
        let ghost ns = self.nodes@;
        match find_id(&self.nodes, &self.by_id, parent) {
            Some(_) => {},
            None => {
                return Err(DomainError::MissingNode(parent));
            },
        }
        if children.len() == 0 {
            return Err(DomainError::EmptyChildren);
        }
        let mut k: usize = 0;
        while k < children.len()
            invariant
                self.well_formed(),
                ns == self.nodes@,
                has_id(ns, parent),
                0 <= k <= children@.len(),
                forall|j: int| 0 <= j < k ==> !replacement_blocked(ns, parent, #[trigger] children@[j]),
            decreases children@.len() - k,
        {
            let child = children[k];
            match find_id(&self.nodes, &self.by_id, child) {
                None => {
                    proof {
                        assert(replacement_blocked(ns, parent, children@[k as int]));
                    }
                    return Err(DomainError::MissingNode(child));
                },
                Some(_) => {},
            }
            if child.get() == parent.get() {
                proof {
                    super::super::node::lemma_node_id_ext(child, parent);
                    lemma_trivial_path(ns, parent);
                    assert(replacement_blocked(ns, parent, children@[k as int]));
                }
                return Err(DomainError::CycleDetected { at: parent });
            }
            let back = match self.is_reachable(child, parent) {
                Ok(b) => b,
                Err(e) => {
                    return Err(e);
                },
            };
            if back {
                proof {
                    assert(replacement_blocked(ns, parent, children@[k as int]));
                }
                return Err(DomainError::CycleDetected { at: parent });
            }
            k = k + 1;
        }
        Ok(())
    }
}

} // verus!
