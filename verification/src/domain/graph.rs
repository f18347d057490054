//! The catalog seen as a graph: paths, reachability, cycles, path counts and the canonical
//! XML of a node, all over a sequence of nodes.

use vstd::prelude::*;

use super::node::{Node, NodeBody, NodeId};

verus! {

/// Some node of `ns` has identity `id`.
pub open spec fn has_id(ns: Seq<Node>, id: NodeId) -> bool {
    exists|i: int| 0 <= i < ns.len() && (#[trigger] ns[i]).header.id == id
}

/// The position of the node with identity `id` (meaningful when it exists).
pub open spec fn index_of(ns: Seq<Node>, id: NodeId) -> int {
    choose|i: int| 0 <= i < ns.len() && (#[trigger] ns[i]).header.id == id
}

/// No two nodes share an identity.
pub open spec fn unique_ids(ns: Seq<Node>) -> bool {
    forall|i: int, j: int|
        0 <= i < ns.len() && 0 <= j < ns.len() && i != j ==> (#[trigger] ns[i]).header.id
            != (#[trigger] ns[j]).header.id
}

/// The children of the node with identity `id`.
pub open spec fn children_of(ns: Seq<Node>, id: NodeId) -> Seq<NodeId> {
    ns[index_of(ns, id)].body.children()
}

/// Step `k` of `p` follows an edge.
pub open spec fn linked(ns: Seq<Node>, p: Seq<NodeId>, k: int) -> bool {
    children_of(ns, p[k]).contains(p[k + 1])
}

/// A non-empty walk along child edges between existing nodes.
pub open spec fn is_path(ns: Seq<Node>, p: Seq<NodeId>) -> bool {
    &&& p.len() > 0
    &&& forall|k: int| 0 <= k < p.len() ==> has_id(ns, #[trigger] p[k])
    &&& forall|k: int| 0 <= k < p.len() - 1 ==> #[trigger] linked(ns, p, k)
}

/// `b` can be reached from `a` (every existing node reaches itself).
pub open spec fn reaches(ns: Seq<Node>, a: NodeId, b: NodeId) -> bool {
    exists|p: Seq<NodeId>| #[trigger] is_path(ns, p) && p[0] == a && p.last() == b
}

/// `a` lies on a directed cycle.
pub open spec fn on_cycle(ns: Seq<Node>, a: NodeId) -> bool {
    exists|p: Seq<NodeId>| #[trigger] is_path(ns, p) && p.len() >= 2 && p[0] == a && p.last() == a
}

/// The graph has no directed cycle.
pub open spec fn acyclic(ns: Seq<Node>) -> bool {
    forall|a: NodeId| !#[trigger] on_cycle(ns, a)
}

/// Every child reference names an existing node.
pub open spec fn refs_closed(ns: Seq<Node>) -> bool {
    forall|i: int, c: int|
        0 <= i < ns.len() && 0 <= c < ns[i].body.children().len() ==> has_id(
            ns,
            #[trigger] ns[i].body.children()[c],
        )
}

/// A ranking that strictly decreases along every edge: a witness of acyclicity.
pub open spec fn ranked(ns: Seq<Node>, rank: Seq<nat>) -> bool {
    &&& rank.len() == ns.len()
    &&& unique_ids(ns)
    &&& refs_closed(ns)
    &&& forall|i: int| 0 <= i < ns.len() ==> #[trigger] rank[i] < ns.len()
    &&& forall|i: int, c: int|
        0 <= i < ns.len() && 0 <= c < ns[i].body.children().len() ==> rank[index_of(
            ns,
            #[trigger] ns[i].body.children()[c],
        )] < rank[i]
}

/// The identity of an existing node names it.
pub proof fn lemma_index_of(ns: Seq<Node>, id: NodeId)
    requires
        unique_ids(ns),
        has_id(ns, id),
    ensures
        0 <= index_of(ns, id) < ns.len(),
        ns[index_of(ns, id)].header.id == id,
        forall|j: int| 0 <= j < ns.len() && (#[trigger] ns[j]).header.id == id ==> j == index_of(ns, id),
{
}

/// The position of a node is found again from its identity.
pub proof fn lemma_index_of_node(ns: Seq<Node>, i: int)
    requires
        unique_ids(ns),
        0 <= i < ns.len(),
    ensures
        has_id(ns, ns[i].header.id),
        index_of(ns, ns[i].header.id) == i,
{
    assert(has_id(ns, ns[i].header.id));
    lemma_index_of(ns, ns[i].header.id);
}

/// A child that occurs in a child list is ranked below its parent.
pub proof fn lemma_child_rank(ns: Seq<Node>, rank: Seq<nat>, i: int, c: NodeId)
    requires
        ranked(ns, rank),
        0 <= i < ns.len(),
        ns[i].body.children().contains(c),
    ensures
        has_id(ns, c),
        0 <= index_of(ns, c) < ns.len(),
        rank[index_of(ns, c)] < rank[i],
{
    let k = choose|k: int| 0 <= k < ns[i].body.children().len() && ns[i].body.children()[k] == c;
    assert(has_id(ns, ns[i].body.children()[k]));
    lemma_index_of(ns, c);
}

/// Ranks strictly decrease along a path of two or more nodes.
pub proof fn lemma_path_rank(ns: Seq<Node>, rank: Seq<nat>, p: Seq<NodeId>)
    requires
        ranked(ns, rank),
        is_path(ns, p),
        p.len() >= 2,
    ensures
        rank[index_of(ns, p.last())] < rank[index_of(ns, p[0])],
    decreases p.len(),
{
    assert(has_id(ns, p[0]));
    lemma_index_of(ns, p[0]);
    assert(linked(ns, p, 0));
    lemma_child_rank(ns, rank, index_of(ns, p[0]), p[1]);
    if p.len() > 2 {
        let q = p.drop_first();
        assert forall|k: int| 0 <= k < q.len() - 1 implies #[trigger] linked(ns, q, k) by {
            assert(linked(ns, p, k + 1));
        }
        assert forall|k: int| 0 <= k < q.len() implies has_id(ns, #[trigger] q[k]) by {
            assert(has_id(ns, p[k + 1]));
        }
        lemma_path_rank(ns, rank, q);
    }
}

/// A ranked graph has no cycle.
pub proof fn lemma_ranked_acyclic(ns: Seq<Node>, rank: Seq<nat>)
    requires
        ranked(ns, rank),
    ensures
        acyclic(ns),
{
    assert forall|a: NodeId| !#[trigger] on_cycle(ns, a) by {
        if on_cycle(ns, a) {
            let p = choose|p: Seq<NodeId>| #[trigger] is_path(ns, p) && p.len() >= 2 && p[0] == a && p.last() == a;
            lemma_path_rank(ns, rank, p);
        }
    }
}

/// A single existing node is a path.
pub proof fn lemma_trivial_path(ns: Seq<Node>, a: NodeId)
    requires
        has_id(ns, a),
    ensures
        reaches(ns, a, a),
{
    let p = seq![a];
    assert(is_path(ns, p));
}

/// A path extended by an edge from its last node is a path.
pub proof fn lemma_extend_path(ns: Seq<Node>, a: NodeId, b: NodeId, c: NodeId)
    requires
        reaches(ns, a, b),
        children_of(ns, b).contains(c),
        has_id(ns, c),
    ensures
        reaches(ns, a, c),
{
    let p = choose|p: Seq<NodeId>| #[trigger] is_path(ns, p) && p[0] == a && p.last() == b;
    let q = p.push(c);
    assert forall|k: int| 0 <= k < q.len() implies has_id(ns, #[trigger] q[k]) by {
        if k < p.len() {
            assert(q[k] == p[k]);
        }
    }
    assert forall|k: int| 0 <= k < q.len() - 1 implies #[trigger] linked(ns, q, k) by {
        if k < p.len() - 1 {
            assert(linked(ns, p, k));
            assert(q[k] == p[k] && q[k + 1] == p[k + 1]);
        } else {
            assert(q[k] == b && q[k + 1] == c);
        }
    }
    assert(is_path(ns, q));
}

/// Every path from a start that lies in a set closed under child edges stays in that set.
pub proof fn lemma_closed_contains_reachable(
    ns: Seq<Node>,
    inside: spec_fn(NodeId) -> bool,
    a: NodeId,
    b: NodeId,
)
    requires
        inside(a),
        forall|x: NodeId, y: NodeId|
            inside(x) && has_id(ns, x) && #[trigger] children_of(ns, x).contains(y) ==> #[trigger] inside(y),
        reaches(ns, a, b),
    ensures
        inside(b),
{
    let p = choose|p: Seq<NodeId>| #[trigger] is_path(ns, p) && p[0] == a && p.last() == b;
    lemma_closed_prefix(ns, inside, p, p.len() - 1);
}

proof fn lemma_closed_prefix(ns: Seq<Node>, inside: spec_fn(NodeId) -> bool, p: Seq<NodeId>, k: int)
    requires
        is_path(ns, p),
        0 <= k < p.len(),
        inside(p[0]),
        forall|x: NodeId, y: NodeId|
            inside(x) && has_id(ns, x) && #[trigger] children_of(ns, x).contains(y) ==> #[trigger] inside(y),
    ensures
        inside(p[k]),
    decreases k,
{
    if k > 0 {
        lemma_closed_prefix(ns, inside, p, k - 1);
        assert(linked(ns, p, k - 1));
        assert(has_id(ns, p[k - 1]));
    }
}

/// How many times `x` occurs in `s`.
pub open spec fn seq_count(s: Seq<NodeId>, x: NodeId) -> nat
    decreases s.len(),
{
    if s.len() == 0 {
        0
    } else {
        seq_count(s.drop_last(), x) + if s.last() == x {
            1nat
        } else {
            0nat
        }
    }
}

/// A positive count means the element occurs.
pub proof fn lemma_seq_count_contains(s: Seq<NodeId>, x: NodeId)
    requires
        seq_count(s, x) > 0,
    ensures
        s.contains(x),
    decreases s.len(),
{
    if s.last() != x {
        lemma_seq_count_contains(s.drop_last(), x);
        let k = choose|k: int| 0 <= k < s.drop_last().len() && s.drop_last()[k] == x;
        assert(s[k] == x);
    } else {
        assert(s[s.len() - 1] == x);
    }
}

/// Number of edges from the node at position `u` to `v`, duplicates included.
pub open spec fn mult(ns: Seq<Node>, u: int, v: NodeId) -> nat {
    seq_count(ns[u].body.children(), v)
}

/// Number of walks of at most `fuel` edges from `root` to `v`.
pub open spec fn walks(ns: Seq<Node>, root: NodeId, v: NodeId, fuel: nat) -> nat
    decreases fuel, 0nat, 0nat,
{
    let base: nat = if v == root {
        1
    } else {
        0
    };
    if fuel == 0 {
        base
    } else {
        base + parent_walks(ns, root, v, (fuel - 1) as nat, ns.len())
    }
}

/// Sum, over the first `j` nodes `u`, of the edges `u -> v` times the walks to `u`.
pub open spec fn parent_walks(ns: Seq<Node>, root: NodeId, v: NodeId, fuel: nat, j: nat) -> nat
    decreases fuel, 1nat, j,
{
    if j == 0 {
        0
    } else {
        parent_walks(ns, root, v, fuel, (j - 1) as nat) + mult(ns, j - 1, v) * walks(
            ns,
            root,
            ns[j - 1].header.id,
            fuel,
        )
    }
}

/// Number of occurrences of `v` in the expansion of `root`: the number of paths from
/// `root` to `v`, where each duplicate child edge counts separately.
pub open spec fn occurrences(ns: Seq<Node>, root: NodeId, v: NodeId) -> nat {
    walks(ns, root, v, ns.len())
}

/// Sum, over the first `j` nodes `u`, of the edges `u -> v` times the occurrences of `u`.
pub open spec fn parent_occurrences(ns: Seq<Node>, root: NodeId, v: NodeId, j: nat) -> nat
    decreases j,
{
    if j == 0 {
        0
    } else {
        parent_occurrences(ns, root, v, (j - 1) as nat) + mult(ns, j - 1, v) * occurrences(
            ns,
            root,
            ns[j - 1].header.id,
        )
    }
}

/// An edge `u -> v` means `u` ranks above `v`.
pub proof fn lemma_mult_rank(ns: Seq<Node>, rank: Seq<nat>, u: int, v: NodeId)
    requires
        ranked(ns, rank),
        0 <= u < ns.len(),
        mult(ns, u, v) > 0,
    ensures
        has_id(ns, v),
        rank[index_of(ns, v)] < rank[u],
{
    lemma_seq_count_contains(ns[u].body.children(), v);
    lemma_child_rank(ns, rank, u, v);
}

/// Walks with enough fuel no longer grow with more fuel.
pub proof fn lemma_walks_stable(ns: Seq<Node>, rank: Seq<nat>, root: NodeId, v: NodeId, f: nat)
    requires
        ranked(ns, rank),
        has_id(ns, v),
        f >= ns.len() - rank[index_of(ns, v)],
    ensures
        walks(ns, root, v, f + 1) == walks(ns, root, v, f),
    decreases ns.len() - rank[index_of(ns, v)], ns.len() + 1,
{
    lemma_index_of(ns, v);
    lemma_parent_walks_stable(ns, rank, root, v, f, ns.len());
}

proof fn lemma_parent_walks_stable(
    ns: Seq<Node>,
    rank: Seq<nat>,
    root: NodeId,
    v: NodeId,
    f: nat,
    j: nat,
)
    requires
        ranked(ns, rank),
        has_id(ns, v),
        f >= ns.len() - rank[index_of(ns, v)],
        j <= ns.len(),
    ensures
        parent_walks(ns, root, v, f, j) == parent_walks(ns, root, v, (f - 1) as nat, j),
    decreases ns.len() - rank[index_of(ns, v)], j,
{
    lemma_index_of(ns, v);
    if j > 0 {
        lemma_parent_walks_stable(ns, rank, root, v, f, (j - 1) as nat);
        let u = j - 1;
        let m = mult(ns, u, v);
        let w1 = walks(ns, root, ns[u].header.id, f);
        let w0 = walks(ns, root, ns[u].header.id, (f - 1) as nat);
        if m > 0 {
            lemma_mult_rank(ns, rank, u, v);
            lemma_index_of_node(ns, u);
            lemma_walks_stable(ns, rank, root, ns[u].header.id, (f - 1) as nat);
            assert(w1 == w0);
        } else {
            assert(m * w1 == 0 && m * w0 == 0) by (nonlinear_arith)
                requires
                    m == 0,
            ;
        }
        assert(m * w1 == m * w0);
    }
}

/// Walks with fuel `f` equal walks with the full fuel once `f` covers the rank.
pub proof fn lemma_walks_full(ns: Seq<Node>, rank: Seq<nat>, root: NodeId, v: NodeId, f: nat)
    requires
        ranked(ns, rank),
        has_id(ns, v),
        ns.len() - rank[index_of(ns, v)] <= f <= ns.len(),
    ensures
        walks(ns, root, v, f) == occurrences(ns, root, v),
    decreases ns.len() - f,
{
    if f < ns.len() {
        lemma_walks_stable(ns, rank, root, v, f);
        lemma_walks_full(ns, rank, root, v, f + 1);
    }
}

proof fn lemma_parent_walks_full(ns: Seq<Node>, rank: Seq<nat>, root: NodeId, v: NodeId, j: nat)
    requires
        ranked(ns, rank),
        has_id(ns, v),
        ns.len() > 0,
        j <= ns.len(),
    ensures
        parent_walks(ns, root, v, (ns.len() - 1) as nat, j) == parent_occurrences(ns, root, v, j),
    decreases j,
{
    if j > 0 {
        lemma_parent_walks_full(ns, rank, root, v, (j - 1) as nat);
        let u = j - 1;
        let m = mult(ns, u, v);
        let w1 = walks(ns, root, ns[u].header.id, (ns.len() - 1) as nat);
        let w0 = occurrences(ns, root, ns[u].header.id);
        if m > 0 {
            lemma_mult_rank(ns, rank, u, v);
            lemma_index_of_node(ns, u);
            lemma_walks_full(ns, rank, root, ns[u].header.id, (ns.len() - 1) as nat);
            assert(w1 == w0);
        } else {
            assert(m * w1 == 0 && m * w0 == 0) by (nonlinear_arith)
                requires
                    m == 0,
            ;
        }
        assert(m * w1 == m * w0);
    }
}

/// Occurrences satisfy their defining recurrence: one for the root itself, plus one per
/// occurrence of each parent and each edge from it.
pub proof fn lemma_occurrences_recurrence(ns: Seq<Node>, rank: Seq<nat>, root: NodeId, v: NodeId)
    requires
        ranked(ns, rank),
        has_id(ns, v),
    ensures
        occurrences(ns, root, v) == (if v == root {
            1nat
        } else {
            0nat
        }) + parent_occurrences(ns, root, v, ns.len()),
{
    lemma_parent_walks_full(ns, rank, root, v, ns.len());
}

/// The bytes `&amp;`, `&lt;`, `&gt;` or the byte itself.
pub open spec fn escape_byte(b: u8) -> Seq<u8> {
    if b == 38 {
        seq![38u8, 97u8, 109u8, 112u8, 59u8]
    } else if b == 60 {
        seq![38u8, 108u8, 116u8, 59u8]
    } else if b == 62 {
        seq![38u8, 103u8, 116u8, 59u8]
    } else {
        seq![b]
    }
}

/// Text bytes with `&`, `<` and `>` escaped; quotes are kept.
pub open spec fn escape(s: Seq<u8>) -> Seq<u8>
    decreases s.len(),
{
    if s.len() == 0 {
        seq![]
    } else {
        escape(s.drop_last()) + escape_byte(s.last())
    }
}

/// `<symbol>`.
pub open spec fn open_tag(sym: Seq<char>) -> Seq<u8> {
    seq![60u8] + vstd::utf8::encode_utf8(sym) + seq![62u8]
}

/// `</symbol>`.
pub open spec fn close_tag(sym: Seq<char>) -> Seq<u8> {
    seq![60u8, 47u8] + vstd::utf8::encode_utf8(sym) + seq![62u8]
}

/// The XML of a node, expanding at most `fuel` levels.
pub open spec fn xml_within(ns: Seq<Node>, v: NodeId, fuel: nat) -> Seq<u8>
    decreases fuel, 0nat, 0nat,
{
    if fuel == 0 || !has_id(ns, v) {
        seq![]
    } else {
        let node = ns[index_of(ns, v)];
        let sym = node.header.symbol@;
        open_tag(sym) + match node.body {
            NodeBody::Fragment(t) => escape(vstd::utf8::encode_utf8(t@)),
            NodeBody::Prompt(_) => xml_seq_within(ns, node.body.children(), (fuel - 1) as nat),
        } + close_tag(sym)
    }
}

/// The XML of each node of `cs`, in order.
pub open spec fn xml_seq_within(ns: Seq<Node>, cs: Seq<NodeId>, fuel: nat) -> Seq<u8>
    decreases fuel, 1nat, cs.len(),
{
    if cs.len() == 0 {
        seq![]
    } else {
        xml_within(ns, cs[0], fuel) + xml_seq_within(ns, cs.drop_first(), fuel)
    }
}

/// The canonical XML of a node: every occurrence expanded in child order.
pub open spec fn xml_of(ns: Seq<Node>, v: NodeId) -> Seq<u8> {
    xml_within(ns, v, ns.len())
}

/// The canonical XML document of a root: its XML and a final newline.
pub open spec fn canonical_xml(ns: Seq<Node>, root: NodeId) -> Seq<u8> {
    xml_of(ns, root) + seq![10u8]
}

/// XML with more fuel than the rank is the same whatever the fuel.
pub proof fn lemma_xml_stable(ns: Seq<Node>, rank: Seq<nat>, v: NodeId, f: nat, g: nat)
    requires
        ranked(ns, rank),
        has_id(ns, v),
        f > rank[index_of(ns, v)],
        g > rank[index_of(ns, v)],
    ensures
        xml_within(ns, v, f) == xml_within(ns, v, g),
    decreases rank[index_of(ns, v)], 1nat, 0nat,
{
    lemma_index_of(ns, v);
    let i = index_of(ns, v);
    let cs = ns[i].body.children();
    assert forall|c: int| 0 <= c < cs.len() implies has_id(ns, #[trigger] cs[c]) && rank[index_of(
        ns,
        cs[c],
    )] < rank[i] by {
        assert(ns[i].body.children()[c] == cs[c]);
    }
    lemma_xml_seq_stable(ns, rank, cs, (f - 1) as nat, (g - 1) as nat, rank[i]);
}

/// XML of a child list with more fuel than every rank is the same whatever the fuel.
pub proof fn lemma_xml_seq_stable(
    ns: Seq<Node>,
    rank: Seq<nat>,
    cs: Seq<NodeId>,
    f: nat,
    g: nat,
    bound: nat,
)
    requires
        ranked(ns, rank),
        forall|c: int|
            0 <= c < cs.len() ==> has_id(ns, #[trigger] cs[c]) && rank[index_of(ns, cs[c])] < bound,
        f >= bound,
        g >= bound,
    ensures
        xml_seq_within(ns, cs, f) == xml_seq_within(ns, cs, g),
    decreases bound, 0nat, cs.len(),
{
    if cs.len() > 0 {
        assert(has_id(ns, cs[0]));
        lemma_xml_stable(ns, rank, cs[0], f, g);
        let rest = cs.drop_first();
        assert forall|c: int| 0 <= c < rest.len() implies has_id(ns, #[trigger] rest[c]) && rank[index_of(
            ns,
            rest[c],
        )] < bound by {
            assert(rest[c] == cs[c + 1]);
        }
        lemma_xml_seq_stable(ns, rank, rest, f, g, bound);
    }
}

/// The XML of a prompt is its tags around the XML of its children, each taken whole.
pub proof fn lemma_xml_unfold(ns: Seq<Node>, rank: Seq<nat>, v: NodeId)
    requires
        ranked(ns, rank),
        has_id(ns, v),
    ensures
        ns.len() > 0,
        xml_of(ns, v) == open_tag(ns[index_of(ns, v)].header.symbol@) + match ns[index_of(
            ns,
            v,
        )].body {
            NodeBody::Fragment(t) => escape(vstd::utf8::encode_utf8(t@)),
            NodeBody::Prompt(_) => xml_seq_within(ns, ns[index_of(ns, v)].body.children(), ns.len()),
        } + close_tag(ns[index_of(ns, v)].header.symbol@),
{
    lemma_index_of(ns, v);
    let i = index_of(ns, v);
    let cs = ns[i].body.children();
    assert forall|c: int| 0 <= c < cs.len() implies has_id(ns, #[trigger] cs[c]) && rank[index_of(
        ns,
        cs[c],
    )] < rank[i] by {
        assert(ns[i].body.children()[c] == cs[c]);
    }
    lemma_xml_seq_stable(ns, rank, cs, (ns.len() - 1) as nat, ns.len(), rank[i]);
}

/// Size of the expansion of a node: one step to open it, one to close a prompt, and the
/// size of each child.
pub open spec fn size_within(ns: Seq<Node>, v: NodeId, fuel: nat) -> nat
    decreases fuel, 0nat, 0nat,
{
    if fuel == 0 || !has_id(ns, v) {
        1
    } else {
        let node = ns[index_of(ns, v)];
        match node.body {
            NodeBody::Fragment(_) => 1,
            NodeBody::Prompt(_) => 2 + size_seq_within(ns, node.body.children(), (fuel - 1) as nat),
        }
    }
}

/// Total size of the expansions of a child list.
pub open spec fn size_seq_within(ns: Seq<Node>, cs: Seq<NodeId>, fuel: nat) -> nat
    decreases fuel, 1nat, cs.len(),
{
    if cs.len() == 0 {
        0
    } else {
        size_within(ns, cs[0], fuel) + size_seq_within(ns, cs.drop_first(), fuel)
    }
}

/// Sizes with more fuel than the rank agree.
pub proof fn lemma_size_stable(ns: Seq<Node>, rank: Seq<nat>, v: NodeId, f: nat, g: nat)
    requires
        ranked(ns, rank),
        has_id(ns, v),
        f > rank[index_of(ns, v)],
        g > rank[index_of(ns, v)],
    ensures
        size_within(ns, v, f) == size_within(ns, v, g),
    decreases rank[index_of(ns, v)], 1nat, 0nat,
{
    lemma_index_of(ns, v);
    let i = index_of(ns, v);
    let cs = ns[i].body.children();
    assert forall|c: int| 0 <= c < cs.len() implies has_id(ns, #[trigger] cs[c]) && rank[index_of(
        ns,
        cs[c],
    )] < rank[i] by {
        assert(ns[i].body.children()[c] == cs[c]);
    }
    lemma_size_seq_stable(ns, rank, cs, (f - 1) as nat, (g - 1) as nat, rank[i]);
}

/// Sizes of a child list with more fuel than every rank agree.
pub proof fn lemma_size_seq_stable(
    ns: Seq<Node>,
    rank: Seq<nat>,
    cs: Seq<NodeId>,
    f: nat,
    g: nat,
    bound: nat,
)
    requires
        ranked(ns, rank),
        forall|c: int|
            0 <= c < cs.len() ==> has_id(ns, #[trigger] cs[c]) && rank[index_of(ns, cs[c])] < bound,
        f >= bound,
        g >= bound,
    ensures
        size_seq_within(ns, cs, f) == size_seq_within(ns, cs, g),
    decreases bound, 0nat, cs.len(),
{
    if cs.len() > 0 {
        assert(has_id(ns, cs[0]));
        lemma_size_stable(ns, rank, cs[0], f, g);
        let rest = cs.drop_first();
        assert forall|c: int| 0 <= c < rest.len() implies has_id(ns, #[trigger] rest[c]) && rank[index_of(
            ns,
            rest[c],
        )] < bound by {
            assert(rest[c] == cs[c + 1]);
        }
        lemma_size_seq_stable(ns, rank, rest, f, g, bound);
    }
}

} // verus!
