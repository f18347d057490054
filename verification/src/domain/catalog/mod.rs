//! The validated catalog: unique identities and symbols, consistent kinds, closed references
//! and no cycles.

use vstd::prelude::*;
use vstd::string::StringSliceAdditionalSpecFns;

use super::error::DomainError;
use super::graph::{
    acyclic, children_of, has_id, index_of, is_path, lemma_index_of, lemma_index_of_node,
    lemma_ranked_acyclic, linked, on_cycle, ranked, reaches, refs_closed, unique_ids,
};
use super::node::{Node, NodeBody, NodeId, Symbol, kind_eq};
use crate::order::{
    byte_order, bytes_lt, lemma_bytes_lt_irreflexive, lemma_bytes_lt_transitive, lemma_encode_injective,
    text_lt, Precedence,
};

pub mod counts;
pub mod render;
pub mod traversal;

use traversal::acyclic_order;

verus! {

/// The order of `(key, position)` pairs.
pub open spec fn pair_le(a: (i64, usize), b: (i64, usize)) -> bool {
    a.0 < b.0 || (a.0 == b.0 && a.1 <= b.1)
}

/// The order of `(bytes, position)` pairs.
pub open spec fn bytes_pair_le(a: (Vec<u8>, usize), b: (Vec<u8>, usize)) -> bool {
    bytes_lt(a.0@, b.0@) || (a.0@ == b.0@ && a.1 <= b.1)
}

/// Sorts pairs with `slice::sort_unstable`: the result holds the same pairs, in ascending
/// tuple order (by key, then by position).
#[verifier::external_body]
fn sort_id_pairs(v: &mut Vec<(i64, usize)>)
    ensures
        final(v)@.to_multiset() == old(v)@.to_multiset(),
        forall|a: int, b: int|
            0 <= a < b < final(v)@.len() ==> pair_le(#[trigger] final(v)@[a], #[trigger] final(v)@[b]),
{
    v.sort_unstable();
}

/// Sorts pairs with `slice::sort_unstable`: the result holds the same pairs, in ascending
/// tuple order (bytes compared lexicographically, then by position).
#[verifier::external_body]
fn sort_symbol_pairs(v: &mut Vec<(Vec<u8>, usize)>)
    ensures
        final(v)@.to_multiset() == old(v)@.to_multiset(),
        forall|a: int, b: int|
            0 <= a < b < final(v)@.len() ==> bytes_pair_le(
                #[trigger] final(v)@[a],
                #[trigger] final(v)@[b],
            ),
{
    v.sort_unstable();
}

/// Node `k` passes the checks made when it joins the nodes before it: its kind matches its
/// payload, and neither its identity nor its symbol occurs earlier.
pub open spec fn admissible(ns: Seq<Node>, k: int) -> bool {
    &&& ns[k].header.kind == ns[k].body.spec_kind()
    &&& forall|j: int| 0 <= j < k ==> (#[trigger] ns[j]).header.id != ns[k].header.id
    &&& forall|j: int| 0 <= j < k ==> (#[trigger] ns[j]).header.symbol@ != ns[k].header.symbol@
}

/// Every node is admissible.
pub open spec fn all_admissible(ns: Seq<Node>) -> bool {
    forall|k: int| 0 <= k < ns.len() ==> #[trigger] admissible(ns, k)
}

/// `k` is the first node that is not admissible.
pub open spec fn first_inadmissible(ns: Seq<Node>, k: int) -> bool {
    &&& 0 <= k < ns.len()
    &&& !admissible(ns, k)
    &&& forall|j: int| 0 <= j < k ==> #[trigger] admissible(ns, j)
}

/// The error for an inadmissible node: a kind mismatch first, then a repeated identity, then
/// a repeated symbol.
pub open spec fn admission_error(ns: Seq<Node>, k: int, e: DomainError) -> bool {
    if ns[k].header.kind != ns[k].body.spec_kind() {
        e == DomainError::KindMismatch {
            declared: ns[k].header.kind,
            actual: ns[k].body.spec_kind(),
        }
    } else if exists|j: int| 0 <= j < k && (#[trigger] ns[j]).header.id == ns[k].header.id {
        e == DomainError::DuplicateNodeId(ns[k].header.id)
    } else {
        e matches DomainError::DuplicateSymbol(s) && s@ == ns[k].header.symbol@
    }
}

/// Child `c` of node `i` names no node.
pub open spec fn dangling(ns: Seq<Node>, i: int, c: int) -> bool {
    &&& 0 <= i < ns.len()
    &&& 0 <= c < ns[i].body.children().len()
    &&& !has_id(ns, ns[i].body.children()[c])
}

/// Child `c` of node `i` is the first dangling reference, nodes taken by identity and
/// children in order.
pub open spec fn first_dangling(ns: Seq<Node>, i: int, c: int) -> bool {
    &&& dangling(ns, i, c)
    &&& forall|c2: int| 0 <= c2 < c ==> !#[trigger] dangling(ns, i, c2)
    &&& forall|i2: int, c2: int|
        0 <= i2 < ns.len() && ns[i2].header.id.id() < ns[i].header.id.id() ==> !#[trigger] dangling(
            ns,
            i2,
            c2,
        )
}

/// No two nodes share a symbol.
pub open spec fn unique_symbols(ns: Seq<Node>) -> bool {
    forall|i: int, j: int|
        0 <= i < ns.len() && 0 <= j < ns.len() && i != j ==> (#[trigger] ns[i]).header.symbol@
            != (#[trigger] ns[j]).header.symbol@
}

/// Every node's declared kind matches its payload.
pub open spec fn kinds_consistent(ns: Seq<Node>) -> bool {
    forall|i: int| 0 <= i < ns.len() ==> (#[trigger] ns[i]).header.kind == ns[i].body.spec_kind()
}

/// `n` is one of the nodes of `ns`.
pub open spec fn holds_node(ns: Seq<Node>, n: Node) -> bool {
    exists|i: int| 0 <= i < ns.len() && ns[i] == n
}

/// `n` is one of the referenced nodes.
pub open spec fn lists_node(rs: Seq<&Node>, n: Node) -> bool {
    exists|p: int| 0 <= p < rs.len() && *rs[p] == n
}

/// Position `i` occurs in `ix`.
pub open spec fn listed(ix: Seq<usize>, i: int) -> bool {
    exists|p: int| 0 <= p < ix.len() && #[trigger] ix[p] == i
}

/// `ix` lists every position once, in strictly increasing identity order.
pub open spec fn id_index(ns: Seq<Node>, ix: Seq<usize>) -> bool {
    &&& ix.len() == ns.len()
    &&& forall|p: int| 0 <= p < ix.len() ==> #[trigger] ix[p] < ns.len()
    &&& forall|p: int, q: int|
        0 <= p < q < ix.len() ==> ns[#[trigger] ix[p] as int].header.id.id() < ns[#[trigger] ix[q] as int].header.id.id()
    &&& forall|i: int| 0 <= i < ns.len() ==> #[trigger] listed(ix, i)
}

/// `ix` lists every position once, in strictly increasing symbol order.
pub open spec fn symbol_index(ns: Seq<Node>, ix: Seq<usize>) -> bool {
    &&& ix.len() == ns.len()
    &&& forall|p: int| 0 <= p < ix.len() ==> #[trigger] ix[p] < ns.len()
    &&& forall|p: int, q: int|
        0 <= p < q < ix.len() ==> text_lt(
            ns[#[trigger] ix[p] as int].header.symbol@,
            ns[#[trigger] ix[q] as int].header.symbol@,
        )
    &&& forall|i: int| 0 <= i < ns.len() ==> #[trigger] listed(ix, i)
}

/// `fin` lists positions in an order where every child comes before its parents; `rank`
/// gives each position's place in it.
pub open spec fn finish_order(fin: Seq<usize>, rank: Seq<nat>, n: nat) -> bool {
    &&& rank.len() == n
    &&& fin.len() == n
    &&& forall|t: int| 0 <= t < fin.len() ==> #[trigger] fin[t] < n && rank[fin[t] as int] == t
    &&& forall|i: int| 0 <= i < n ==> #[trigger] rank[i] < fin.len() && fin[rank[i] as int] == i
}

/// A validated catalog of nodes.
pub struct CatalogSnapshot {
    pub(crate) nodes: Vec<Node>,
    pub(crate) by_id: Vec<usize>,
    pub(crate) by_symbol: Vec<usize>,
    pub(crate) finish: Vec<usize>,
    pub(crate) rank: Ghost<Seq<nat>>,
}

/// Error of a render.
#[derive(Debug)]
pub enum RenderError {
    /// The catalog refused the request.
    Domain(DomainError),
    /// Writing the output failed; the text describes the failure.
    Io(String),
}

impl CatalogSnapshot {
    /// The catalog's structural invariant.
    #[verifier::type_invariant]
    pub(crate) open spec fn well_formed(self) -> bool {
        let ns = self.nodes@;
        &&& ranked(ns, self.rank@)
        &&& unique_symbols(ns)
        &&& kinds_consistent(ns)
        &&& id_index(ns, self.by_id@)
        &&& symbol_index(ns, self.by_symbol@)
        &&& finish_order(self.finish@, self.rank@, ns.len())
    }

    /// The nodes, in the order they were given.
    pub closed spec fn nodes(&self) -> Seq<Node> {
        self.nodes@
    }

    /// The nodes seen through the field.
    pub(crate) proof fn lemma_nodes_view(&self)
        ensures
            self.nodes() == self.nodes@,
    {
    }

    /// Validates nodes into a catalog.
    ///
    /// Each node in turn must have a kind that matches its payload, an identity not seen
    /// before and a symbol not seen before; then, nodes taken by identity, every child must
    /// name a node; then the graph must have no cycle.
    pub fn new(nodes: Vec<Node>) -> (r: Result<Self, DomainError>)
        ensures
            (exists|k: int| first_inadmissible(nodes@, k)) ==> (r matches Err(e) && exists|k: int|
                first_inadmissible(nodes@, k) && admission_error(nodes@, k, e)),
            all_admissible(nodes@) && !refs_closed(nodes@) ==> exists|i: int, c: int|
                first_dangling(nodes@, i, c) && r == Err::<Self, DomainError>(
                    DomainError::MissingNode(nodes@[i].body.children()[c]),
                ),
            all_admissible(nodes@) && refs_closed(nodes@) && !acyclic(nodes@) ==> (r matches Err(
                DomainError::CycleDetected { at },
            ) && on_cycle(nodes@, at)),
            all_admissible(nodes@) && refs_closed(nodes@) && acyclic(nodes@) ==> (r matches Ok(s)
                && s.nodes() == nodes@),
    {
        let n = nodes.len();
        let (id_pairs, id_pos) = sorted_ids(&nodes);
        let (sym_pairs, sym_pos) = sorted_symbols(&nodes);
        let mut k: usize = 0;
        while k < n
            invariant
                n == nodes@.len(),
                0 <= k <= n,
                forall|j: int| 0 <= j < k ==> #[trigger] admissible(nodes@, j),
                ids_sorted(nodes@, id_pairs@, id_pos@),
                symbols_sorted(nodes@, sym_pairs@, sym_pos@),
            decreases n - k,
        {
            let node = &nodes[k];
            let actual = node.body.kind();
            if !kind_eq(node.header.kind, actual) {
                proof {
                    assert(first_inadmissible(nodes@, k as int));
                }
                return Err(DomainError::KindMismatch { declared: node.header.kind, actual });
            }
            let p = id_pos[k];
            if p > 0 && id_pairs[p - 1].0 == id_pairs[p].0 {
                proof {
                    lemma_duplicate_id(nodes@, id_pairs@, id_pos@, k as int);
                    assert(first_inadmissible(nodes@, k as int));
                }
                return Err(DomainError::DuplicateNodeId(node.header.id));
            }
            let q = sym_pos[k];
            if q > 0 {
                let same = byte_order(sym_pairs[q - 1].0.as_slice(), sym_pairs[q].0.as_slice());
                if let Precedence::Same = same {
                    proof {
                        lemma_duplicate_symbol(nodes@, sym_pairs@, sym_pos@, k as int);
                        lemma_no_earlier_id(nodes@, id_pairs@, id_pos@, k as int);
                        assert(first_inadmissible(nodes@, k as int));
                    }
                    let text = node.header.symbol.clone().into_inner();
                    return Err(DomainError::DuplicateSymbol(text));
                }
            }
            proof {
                lemma_no_earlier_id(nodes@, id_pairs@, id_pos@, k as int);
                lemma_no_earlier_symbol(nodes@, sym_pairs@, sym_pos@, k as int);
                assert(admissible(nodes@, k as int));
            }
            k = k + 1;
        }
        proof {
            assert(all_admissible(nodes@));
            lemma_admissible_unique(nodes@);
        }
        let by_id = second_components(&id_pairs);
        let by_symbol = second_components_bytes(&sym_pairs);
        proof {
            lemma_id_index(nodes@, id_pairs@, id_pos@, by_id@);
            lemma_symbol_index(nodes@, sym_pairs@, sym_pos@, by_symbol@);
        }
        match check_references(&nodes, &by_id) {
            Some((i, c)) => {
                let child = child_at(&nodes[i], c);
                return Err(DomainError::MissingNode(child));
            },
            None => {},
        }
        match acyclic_order(&nodes, &by_id) {
            Err(at) => {
                return Err(DomainError::CycleDetected { at });
            },
            Ok((finish, rank)) => {
                proof {
                    lemma_ranked_acyclic(nodes@, rank@);
                }
                Ok(CatalogSnapshot { nodes, by_id, by_symbol, finish, rank })
            },
        }
    }
}

impl CatalogSnapshot {
    /// Number of nodes.
    pub fn len(&self) -> (n: usize)
        ensures
            n == self.nodes().len(),
    {
        self.nodes.len()
    }

    /// Whether the catalog holds no node.
    pub fn is_empty(&self) -> (b: bool)
        ensures
            b == (self.nodes().len() == 0),
    {
        self.nodes.len() == 0
    }

    /// The node with identity `id`.
    pub fn get(&self, id: NodeId) -> (r: Option<&Node>)
        ensures
            has_id(self.nodes(), id) ==> (r matches Some(n) && *n == self.nodes()[index_of(
                self.nodes(),
                id,
            )] && n.header.id == id),
            !has_id(self.nodes(), id) ==> r.is_none(),
    {
        proof {
            use_type_invariant(self);
        }
        match find_id(&self.nodes, &self.by_id, id) {
            Some(i) => Some(&self.nodes[i]),
            None => None,
        }
    }

    /// The node whose symbol is `symbol`.
    pub fn get_by_symbol(&self, symbol: &Symbol) -> (r: Option<&Node>)
        ensures
            unique_symbols(self.nodes()),
            refs_closed(self.nodes()),
            match r {
                Some(n) => n.header.symbol@ == symbol@ && exists|i: int|
                    0 <= i < self.nodes().len() && self.nodes()[i] == *n,
                None => forall|i: int|
                    0 <= i < self.nodes().len() ==> (#[trigger] self.nodes()[i]).header.symbol@ != symbol@,
            },
    {
        proof {
            use_type_invariant(self);
        }
        let key = symbol.as_str().as_bytes();
        let ghost target = symbol@;
        let mut lo: usize = 0;
        let mut hi: usize = self.by_symbol.len();
        while lo < hi
            invariant
                self.well_formed(),
                key@ == vstd::utf8::encode_utf8(target),
                target == symbol@,
                0 <= lo <= hi <= self.by_symbol@.len(),
                forall|p: int| 0 <= p < lo ==> text_lt(self.nodes@[#[trigger] self.by_symbol@[p] as int].header.symbol@, target),
                forall|p: int| hi <= p < self.by_symbol@.len() ==> text_lt(target, self.nodes@[#[trigger] self.by_symbol@[p] as int].header.symbol@),
            decreases hi - lo,
        {
            let mid = lo + (hi - lo) / 2;
            let i = self.by_symbol[mid];
            let here = self.nodes[i].header.symbol.as_str().as_bytes();
            let ghost hs = self.nodes@[i as int].header.symbol@;
            match byte_order(here, key) {
                Precedence::Same => {
                    proof {
                        lemma_encode_injective(hs, target);
                    }
                    return Some(&self.nodes[i]);
                },
                Precedence::Before => {
                    proof {
                        assert forall|p: int| 0 <= p < mid + 1 implies text_lt(self.nodes@[#[trigger] self.by_symbol@[p] as int].header.symbol@, target) by {
                            if p < mid {
                                crate::order::lemma_text_lt_transitive(
                                    self.nodes@[self.by_symbol@[p] as int].header.symbol@,
                                    hs,
                                    target,
                                );
                            }
                        }
                    }
                    lo = mid + 1;
                },
                Precedence::After => {
                    proof {
                        assert forall|p: int| mid <= p < self.by_symbol@.len() implies text_lt(target, self.nodes@[#[trigger] self.by_symbol@[p] as int].header.symbol@) by {
                            if p > mid {
                                crate::order::lemma_text_lt_transitive(
                                    target,
                                    hs,
                                    self.nodes@[self.by_symbol@[p] as int].header.symbol@,
                                );
                            }
                        }
                    }
                    hi = mid;
                },
            }
        }
        proof {
            assert forall|i: int| 0 <= i < self.nodes@.len() implies (#[trigger] self.nodes@[i]).header.symbol@ != target by {
                assert(listed(self.by_symbol@, i));
                let p = choose|p: int| 0 <= p < self.by_symbol@.len() && #[trigger] self.by_symbol@[p] == i;
                crate::order::lemma_text_lt_irreflexive(target);
            }
        }
        None
    }

    /// The nodes in bytewise symbol order.
    pub fn iter_by_symbol(&self) -> (r: Vec<&Node>)
        ensures
            unique_symbols(self.nodes()),
            refs_closed(self.nodes()),
            r@.len() == self.nodes().len(),
            forall|p: int, q: int|
                0 <= p < q < r@.len() ==> text_lt(
                    (#[trigger] r@[p]).header.symbol@,
                    (#[trigger] r@[q]).header.symbol@,
                ),
            forall|p: int| 0 <= p < r@.len() ==> #[trigger] holds_node(self.nodes(), *r@[p]),
            forall|i: int| 0 <= i < self.nodes().len() ==> #[trigger] lists_node(r@, self.nodes()[i]),
    {
        proof {
            use_type_invariant(self);
        }
        let mut out: Vec<&Node> = Vec::new();
        let mut p: usize = 0;
        while p < self.by_symbol.len()
            invariant
                self.well_formed(),
                0 <= p <= self.by_symbol@.len(),
                out@.len() == p,
                forall|q: int| 0 <= q < p ==> *(#[trigger] out@[q]) == self.nodes@[self.by_symbol@[q] as int],
            decreases self.by_symbol@.len() - p,
        {
            out.push(&self.nodes[self.by_symbol[p]]);
            p = p + 1;
        }
        proof {
            assert forall|a: int, b: int| 0 <= a < b < out@.len() implies text_lt(
                (#[trigger] out@[a]).header.symbol@,
                (#[trigger] out@[b]).header.symbol@,
            ) by {
                assert(*out@[a] == self.nodes@[self.by_symbol@[a] as int]);
                assert(*out@[b] == self.nodes@[self.by_symbol@[b] as int]);
            }
            assert(self.nodes() == self.nodes@);
            assert forall|q: int| 0 <= q < out@.len() implies #[trigger] holds_node(self.nodes(), *out@[q]) by {
                let i = self.by_symbol@[q] as int;
                assert(i < self.nodes@.len());
                assert(self.nodes()[i] == *out@[q]);
            }
            assert forall|i: int| 0 <= i < self.nodes().len() implies #[trigger] lists_node(out@, self.nodes()[i]) by {
                assert(listed(self.by_symbol@, i));
                let q = choose|q: int| 0 <= q < self.by_symbol@.len() && #[trigger] self.by_symbol@[q] == i;
                assert(*out@[q] == self.nodes()[i]);
            }
        }
        out
    }
}

/// Number of children of a node.
pub(crate) fn child_count(node: &Node) -> (n: usize)
    ensures
        n == node.body.children().len(),
{
    match &node.body {
        NodeBody::Fragment(_) => 0,
        NodeBody::Prompt(c) => c.as_slice().len(),
    }
}

/// Child `k` of a node.
pub(crate) fn child_at(node: &Node, k: usize) -> (id: NodeId)
    requires
        k < node.body.children().len(),
    ensures
        id == node.body.children()[k as int],
{
    match &node.body {
        NodeBody::Fragment(_) => {
            proof {
                assert(false);
            }
            node.header.id
        },
        NodeBody::Prompt(c) => c.as_slice()[k],
    }
}

/// `pairs` is the sorted list of `(identity, position)` pairs and `pos` the place of each
/// position in it.
spec fn ids_sorted(ns: Seq<Node>, pairs: Seq<(i64, usize)>, pos: Seq<usize>) -> bool {
    &&& pairs.len() == ns.len()
    &&& pos.len() == ns.len()
    &&& forall|a: int, b: int| 0 <= a < b < pairs.len() ==> pair_le(#[trigger] pairs[a], #[trigger] pairs[b])
    &&& forall|p: int|
        0 <= p < pairs.len() ==> (#[trigger] pairs[p]).1 < ns.len() && pairs[p].0 == ns[pairs[p].1 as int].header.id.id()
    &&& forall|a: int, b: int| 0 <= a < b < pairs.len() ==> (#[trigger] pairs[a]).1 != (#[trigger] pairs[b]).1
    &&& forall|i: int| 0 <= i < ns.len() ==> (#[trigger] pos[i]) < ns.len() && pairs[pos[i] as int].1 == i
}

/// `pairs` is the sorted list of `(symbol bytes, position)` pairs and `pos` the place of
/// each position in it.
spec fn symbols_sorted(ns: Seq<Node>, pairs: Seq<(Vec<u8>, usize)>, pos: Seq<usize>) -> bool {
    &&& pairs.len() == ns.len()
    &&& pos.len() == ns.len()
    &&& forall|a: int, b: int|
        0 <= a < b < pairs.len() ==> bytes_pair_le(#[trigger] pairs[a], #[trigger] pairs[b])
    &&& forall|p: int|
        0 <= p < pairs.len() ==> (#[trigger] pairs[p]).1 < ns.len() && pairs[p].0@ == vstd::utf8::encode_utf8(
            ns[pairs[p].1 as int].header.symbol@,
        )
    &&& forall|a: int, b: int| 0 <= a < b < pairs.len() ==> (#[trigger] pairs[a]).1 != (#[trigger] pairs[b]).1
    &&& forall|i: int| 0 <= i < ns.len() ==> (#[trigger] pos[i]) < ns.len() && pairs[pos[i] as int].1 == i
}

/// A sorted permutation of distinct elements keeps them distinct and keeps the same ones.
proof fn lemma_permutation<T>(orig: Seq<T>, s: Seq<T>)
    requires
        orig.no_duplicates(),
        s.to_multiset() == orig.to_multiset(),
    ensures
        s.len() == orig.len(),
        s.no_duplicates(),
        forall|x: T| s.contains(x) <==> orig.contains(x),
{
    broadcast use vstd::seq_lib::group_to_multiset_ensures;

    s.to_multiset_ensures();
    orig.to_multiset_ensures();
    assert(s.to_multiset().len() == orig.to_multiset().len());
    orig.lemma_multiset_has_no_duplicates();
    assert forall|x: T| s.to_multiset().contains(x) implies s.to_multiset().count(x) == 1 by {
        assert(orig.to_multiset().count(x) == s.to_multiset().count(x));
    }
    s.lemma_multiset_has_no_duplicates_conv();
    assert forall|x: T| s.contains(x) <==> orig.contains(x) by {
        s.to_multiset_ensures();
        orig.to_multiset_ensures();
        assert(orig.to_multiset().count(x) == s.to_multiset().count(x));
        assert(s.contains(x) <==> s.to_multiset().count(x) > 0);
        assert(orig.contains(x) <==> orig.to_multiset().count(x) > 0);
    }
}

/// Positions of a sorted list of pairs whose second components are distinct positions.
fn positions_of(pairs: &Vec<(i64, usize)>, n: usize) -> (pos: Vec<usize>)
    requires
        pairs@.len() == n,
        forall|p: int| 0 <= p < n ==> (#[trigger] pairs@[p]).1 < n,
        forall|a: int, b: int| 0 <= a < b < n ==> (#[trigger] pairs@[a]).1 != (#[trigger] pairs@[b]).1,
    ensures
        pos@.len() == n,
        forall|p: int| 0 <= p < n ==> pos@[pairs@[p].1 as int] == p,
{
    let mut pos: Vec<usize> = Vec::new();
    let mut i: usize = 0;
    while i < n
        invariant
            0 <= i <= n,
            pos@.len() == i,
        decreases n - i,
    {
        pos.push(0);
        i = i + 1;
    }
    let mut p: usize = 0;
    while p < n
        invariant
            0 <= p <= n,
            pos@.len() == n,
            pairs@.len() == n,
            forall|q: int| 0 <= q < n ==> (#[trigger] pairs@[q]).1 < n,
            forall|a: int, b: int| 0 <= a < b < n ==> (#[trigger] pairs@[a]).1 != (#[trigger] pairs@[b]).1,
            forall|q: int| 0 <= q < p ==> pos@[(#[trigger] pairs@[q]).1 as int] == q,
        decreases n - p,
    {
        let target = pairs[p].1;
        pos.set(target, p);
        proof {
            assert forall|q: int| 0 <= q < p + 1 implies pos@[(#[trigger] pairs@[q]).1 as int] == q by {
                if q < p {
                    assert(pairs@[q].1 != pairs@[p as int].1);
                }
            }
        }
        p = p + 1;
    }
    pos
}

/// Same as `positions_of`, for pairs keyed by bytes.
fn positions_of_bytes(pairs: &Vec<(Vec<u8>, usize)>, n: usize) -> (pos: Vec<usize>)
    requires
        pairs@.len() == n,
        forall|p: int| 0 <= p < n ==> (#[trigger] pairs@[p]).1 < n,
        forall|a: int, b: int| 0 <= a < b < n ==> (#[trigger] pairs@[a]).1 != (#[trigger] pairs@[b]).1,
    ensures
        pos@.len() == n,
        forall|p: int| 0 <= p < n ==> pos@[pairs@[p].1 as int] == p,
{
    let mut pos: Vec<usize> = Vec::new();
    let mut i: usize = 0;
    while i < n
        invariant
            0 <= i <= n,
            pos@.len() == i,
        decreases n - i,
    {
        pos.push(0);
        i = i + 1;
    }
    let mut p: usize = 0;
    while p < n
        invariant
            0 <= p <= n,
            pos@.len() == n,
            pairs@.len() == n,
            forall|q: int| 0 <= q < n ==> (#[trigger] pairs@[q]).1 < n,
            forall|a: int, b: int| 0 <= a < b < n ==> (#[trigger] pairs@[a]).1 != (#[trigger] pairs@[b]).1,
            forall|q: int| 0 <= q < p ==> pos@[(#[trigger] pairs@[q]).1 as int] == q,
        decreases n - p,
    {
        let target = pairs[p].1;
        pos.set(target, p);
        proof {
            assert forall|q: int| 0 <= q < p + 1 implies pos@[(#[trigger] pairs@[q]).1 as int] == q by {
                if q < p {
                    assert(pairs@[q].1 != pairs@[p as int].1);
                }
            }
        }
        p = p + 1;
    }
    pos
}

/// The `(identity, position)` pairs of the nodes, sorted, with the place of each position.
fn sorted_ids(nodes: &Vec<Node>) -> (r: (Vec<(i64, usize)>, Vec<usize>))
    ensures
        ids_sorted(nodes@, r.0@, r.1@),
{
    let n = nodes.len();
    let mut pairs: Vec<(i64, usize)> = Vec::new();
    let mut i: usize = 0;
    while i < n
        invariant
            n == nodes@.len(),
            0 <= i <= n,
            pairs@.len() == i,
            forall|p: int| 0 <= p < i ==> #[trigger] pairs@[p] == (nodes@[p].header.id.id(), p as usize),
        decreases n - i,
    {
        pairs.push((nodes[i].header.id.get(), i));
        i = i + 1;
    }
    let ghost orig = pairs@;
    proof {
        assert(orig.no_duplicates()) by {
            assert forall|a: int, b: int| 0 <= a < orig.len() && 0 <= b < orig.len() && a != b implies orig[a] != orig[b] by {
                assert(orig[a].1 == a && orig[b].1 == b);
            }
        }
    }
    sort_id_pairs(&mut pairs);
    proof {
        lemma_permutation(orig, pairs@);
        assert forall|p: int| 0 <= p < pairs@.len() implies (#[trigger] pairs@[p]).1 < n && pairs@[p]
            == orig[pairs@[p].1 as int] by {
            assert(pairs@.contains(pairs@[p]));
            let j = choose|j: int| 0 <= j < orig.len() && orig[j] == pairs@[p];
        }
        assert forall|a: int, b: int| 0 <= a < b < n implies (#[trigger] pairs@[a]).1 != (
        #[trigger] pairs@[b]).1 by {
            assert(pairs@[a] == orig[pairs@[a].1 as int]);
            assert(pairs@[b] == orig[pairs@[b].1 as int]);
        }
    }
    let pos = positions_of(&pairs, n);
    proof {
        assert forall|i: int| 0 <= i < n implies (#[trigger] pos@[i]) < n && pairs@[pos@[i] as int].1 == i by {
            assert(orig.contains(orig[i]));
            let p = choose|p: int| 0 <= p < pairs@.len() && pairs@[p] == orig[i];
            assert(pos@[pairs@[p].1 as int] == p);
        }
    }
    (pairs, pos)
}

/// The UTF-8 bytes of a text.
fn bytes_of(s: &str) -> (v: Vec<u8>)
    ensures
        v@ == s.spec_bytes(),
{
    let b = s.as_bytes();
    let mut v: Vec<u8> = Vec::new();
    let mut i: usize = 0;
    while i < b.len()
        invariant
            0 <= i <= b@.len(),
            v@ == b@.take(i as int),
        decreases b@.len() - i,
    {
        v.push(b[i]);
        proof {
            assert(b@.take(i + 1) =~= b@.take(i as int).push(b@[i as int]));
        }
        i = i + 1;
    }
    proof {
        assert(b@.take(b@.len() as int) =~= b@);
    }
    v
}

/// The `(symbol bytes, position)` pairs of the nodes, sorted, with the place of each
/// position.
fn sorted_symbols(nodes: &Vec<Node>) -> (r: (Vec<(Vec<u8>, usize)>, Vec<usize>))
    ensures
        symbols_sorted(nodes@, r.0@, r.1@),
{
    let n = nodes.len();
    let mut pairs: Vec<(Vec<u8>, usize)> = Vec::new();
    let mut i: usize = 0;
    while i < n
        invariant
            n == nodes@.len(),
            0 <= i <= n,
            pairs@.len() == i,
            forall|p: int|
                0 <= p < i ==> (#[trigger] pairs@[p]).1 == p && pairs@[p].0@ == vstd::utf8::encode_utf8(
                    nodes@[p].header.symbol@,
                ),
        decreases n - i,
    {
        let bytes = bytes_of(nodes[i].header.symbol.as_str());
        pairs.push((bytes, i));
        i = i + 1;
    }
    let ghost orig = pairs@;
    proof {
        assert(orig.no_duplicates()) by {
            assert forall|a: int, b: int| 0 <= a < orig.len() && 0 <= b < orig.len() && a != b implies orig[a] != orig[b] by {
                assert(orig[a].1 == a && orig[b].1 == b);
            }
        }
    }
    sort_symbol_pairs(&mut pairs);
    proof {
        lemma_permutation(orig, pairs@);
        assert forall|p: int| 0 <= p < pairs@.len() implies (#[trigger] pairs@[p]).1 < n && pairs@[p]
            == orig[pairs@[p].1 as int] by {
            assert(pairs@.contains(pairs@[p]));
            let j = choose|j: int| 0 <= j < orig.len() && orig[j] == pairs@[p];
        }
        assert forall|a: int, b: int| 0 <= a < b < n implies (#[trigger] pairs@[a]).1 != (
        #[trigger] pairs@[b]).1 by {
            assert(pairs@[a] == orig[pairs@[a].1 as int]);
            assert(pairs@[b] == orig[pairs@[b].1 as int]);
        }
    }
    let pos = positions_of_bytes(&pairs, n);
    proof {
        assert forall|i: int| 0 <= i < n implies (#[trigger] pos@[i]) < n && pairs@[pos@[i] as int].1 == i by {
            assert(orig.contains(orig[i]));
            let p = choose|p: int| 0 <= p < pairs@.len() && pairs@[p] == orig[i];
            assert(pos@[pairs@[p].1 as int] == p);
        }
    }
    (pairs, pos)
}

/// The pair just before node `k`'s pair has the same identity exactly when an earlier node
/// has that identity.
proof fn lemma_duplicate_id(ns: Seq<Node>, pairs: Seq<(i64, usize)>, pos: Seq<usize>, k: int)
    requires
        ids_sorted(ns, pairs, pos),
        0 <= k < ns.len(),
        pos[k] > 0,
        pairs[pos[k] - 1].0 == pairs[pos[k] as int].0,
    ensures
        exists|j: int| 0 <= j < k && (#[trigger] ns[j]).header.id == ns[k].header.id,
{
    let p = pos[k] as int;
    assert(pos[k] < ns.len() && pairs[p].1 == k);
    let e = pairs[p - 1];
    let j = e.1 as int;
    assert(e.1 < ns.len() && e.0 == ns[j].header.id.id());
    assert(pairs[p].0 == ns[k].header.id.id());
    assert(pair_le(pairs[p - 1], pairs[p]));
    assert(e.1 != pairs[p].1);
    assert(j < k);
    super::node::lemma_node_id_ext(ns[j].header.id, ns[k].header.id);
    assert(ns[j].header.id == ns[k].header.id);
}

/// Without a matching pair just before node `k`'s pair, no earlier node has its identity.
proof fn lemma_no_earlier_id(ns: Seq<Node>, pairs: Seq<(i64, usize)>, pos: Seq<usize>, k: int)
    requires
        ids_sorted(ns, pairs, pos),
        0 <= k < ns.len(),
        !(pos[k] > 0 && pairs[pos[k] - 1].0 == pairs[pos[k] as int].0),
    ensures
        forall|j: int| 0 <= j < k ==> (#[trigger] ns[j]).header.id != ns[k].header.id,
{
    assert forall|j: int| 0 <= j < k implies (#[trigger] ns[j]).header.id != ns[k].header.id by {
        if ns[j].header.id == ns[k].header.id {
            let pj = pos[j] as int;
            let pk = pos[k] as int;
            assert(pairs[pj].1 == j && pairs[pk].1 == k);
            if pk < pj {
                assert(pair_le(pairs[pk], pairs[pj]));
            }
            assert(pj < pk);
            assert(pair_le(pairs[pj], pairs[pk - 1]) || pj == pk - 1);
            assert(pair_le(pairs[pk - 1], pairs[pk]));
        }
    }
}

/// Symbols are equal exactly when their encodings are.
proof fn lemma_symbol_bytes(a: Seq<char>, b: Seq<char>)
    ensures
        (a == b) <==> (vstd::utf8::encode_utf8(a) == vstd::utf8::encode_utf8(b)),
{
    if vstd::utf8::encode_utf8(a) == vstd::utf8::encode_utf8(b) {
        lemma_encode_injective(a, b);
    }
}

/// Equal bytes in the pair just before node `k`'s pair means an earlier node has its symbol.
proof fn lemma_duplicate_symbol(
    ns: Seq<Node>,
    pairs: Seq<(Vec<u8>, usize)>,
    pos: Seq<usize>,
    k: int,
)
    requires
        symbols_sorted(ns, pairs, pos),
        0 <= k < ns.len(),
        pos[k] > 0,
        pairs[pos[k] - 1].0@ == pairs[pos[k] as int].0@,
    ensures
        exists|j: int| 0 <= j < k && (#[trigger] ns[j]).header.symbol@ == ns[k].header.symbol@,
{
    let p = pos[k] as int;
    assert(pos[k] < ns.len() && pairs[p].1 == k);
    let e = pairs[p - 1];
    let j = e.1 as int;
    assert(e.1 < ns.len() && e.0@ == vstd::utf8::encode_utf8(ns[j].header.symbol@));
    assert(pairs[p].0@ == vstd::utf8::encode_utf8(ns[k].header.symbol@));
    assert(bytes_pair_le(pairs[p - 1], pairs[p]));
    lemma_bytes_lt_irreflexive(pairs[p].0@);
    assert(e.1 != pairs[p].1);
    assert(j < k);
    lemma_symbol_bytes(ns[j].header.symbol@, ns[k].header.symbol@);
    assert(ns[j].header.symbol@ == ns[k].header.symbol@);
}

/// Without equal bytes just before node `k`'s pair, no earlier node has its symbol.
proof fn lemma_no_earlier_symbol(
    ns: Seq<Node>,
    pairs: Seq<(Vec<u8>, usize)>,
    pos: Seq<usize>,
    k: int,
)
    requires
        symbols_sorted(ns, pairs, pos),
        0 <= k < ns.len(),
        !(pos[k] > 0 && pairs[pos[k] - 1].0@ == pairs[pos[k] as int].0@),
    ensures
        forall|j: int| 0 <= j < k ==> (#[trigger] ns[j]).header.symbol@ != ns[k].header.symbol@,
{
    assert forall|j: int| 0 <= j < k implies (#[trigger] ns[j]).header.symbol@ != ns[k].header.symbol@ by {
        if ns[j].header.symbol@ == ns[k].header.symbol@ {
            let pj = pos[j] as int;
            let pk = pos[k] as int;
            assert(pairs[pj].1 == j && pairs[pk].1 == k);
            assert(pairs[pj].0@ == pairs[pk].0@);
            lemma_bytes_lt_irreflexive(pairs[pk].0@);
            if pk < pj {
                assert(bytes_pair_le(pairs[pk], pairs[pj]));
            }
            assert(pj < pk);
            let m = pairs[pk - 1];
            assert(bytes_pair_le(m, pairs[pk]));
            if pj < pk - 1 {
                assert(bytes_pair_le(pairs[pj], m));
                if bytes_lt(pairs[pj].0@, m.0@) && bytes_lt(m.0@, pairs[pk].0@) {
                    lemma_bytes_lt_transitive(pairs[pj].0@, m.0@, pairs[pk].0@);
                }
                if bytes_lt(pairs[pj].0@, m.0@) && m.0@ == pairs[pk].0@ {
                }
            }
        }
    }
}

/// Admissible nodes have distinct identities and symbols and consistent kinds.
pub(crate) proof fn lemma_admissible_unique(ns: Seq<Node>)
    requires
        all_admissible(ns),
    ensures
        unique_ids(ns),
        unique_symbols(ns),
        kinds_consistent(ns),
{
    assert forall|i: int, j: int| 0 <= i < ns.len() && 0 <= j < ns.len() && i != j implies (
    #[trigger] ns[i]).header.id != (#[trigger] ns[j]).header.id by {
        if i < j {
            assert(admissible(ns, j));
        } else {
            assert(admissible(ns, i));
        }
    }
    assert forall|i: int, j: int| 0 <= i < ns.len() && 0 <= j < ns.len() && i != j implies (
    #[trigger] ns[i]).header.symbol@ != (#[trigger] ns[j]).header.symbol@ by {
        if i < j {
            assert(admissible(ns, j));
        } else {
            assert(admissible(ns, i));
        }
    }
    assert forall|i: int| 0 <= i < ns.len() implies (#[trigger] ns[i]).header.kind == ns[i].body.spec_kind() by {
        assert(admissible(ns, i));
    }
}

/// The second components of a list of pairs.
fn second_components(pairs: &Vec<(i64, usize)>) -> (v: Vec<usize>)
    ensures
        v@.len() == pairs@.len(),
        forall|p: int| 0 <= p < v@.len() ==> #[trigger] v@[p] == pairs@[p].1,
{
    let mut v: Vec<usize> = Vec::new();
    let mut p: usize = 0;
    while p < pairs.len()
        invariant
            0 <= p <= pairs@.len(),
            v@.len() == p,
            forall|q: int| 0 <= q < p ==> #[trigger] v@[q] == pairs@[q].1,
        decreases pairs@.len() - p,
    {
        v.push(pairs[p].1);
        p = p + 1;
    }
    v
}

/// The second components of a list of byte-keyed pairs.
fn second_components_bytes(pairs: &Vec<(Vec<u8>, usize)>) -> (v: Vec<usize>)
    ensures
        v@.len() == pairs@.len(),
        forall|p: int| 0 <= p < v@.len() ==> #[trigger] v@[p] == pairs@[p].1,
{
    let mut v: Vec<usize> = Vec::new();
    let mut p: usize = 0;
    while p < pairs.len()
        invariant
            0 <= p <= pairs@.len(),
            v@.len() == p,
            forall|q: int| 0 <= q < p ==> #[trigger] v@[q] == pairs@[q].1,
        decreases pairs@.len() - p,
    {
        v.push(pairs[p].1);
        p = p + 1;
    }
    v
}

/// With distinct identities, the sorted pairs give an identity index.
proof fn lemma_id_index(ns: Seq<Node>, pairs: Seq<(i64, usize)>, pos: Seq<usize>, ix: Seq<usize>)
    requires
        ids_sorted(ns, pairs, pos),
        unique_ids(ns),
        ix.len() == pairs.len(),
        forall|p: int| 0 <= p < ix.len() ==> #[trigger] ix[p] == pairs[p].1,
    ensures
        id_index(ns, ix),
{
    assert forall|p: int| 0 <= p < ix.len() implies #[trigger] ix[p] < ns.len() by {
        assert(pairs[p].1 < ns.len());
    }
    assert forall|p: int, q: int| 0 <= p < q < ix.len() implies ns[#[trigger] ix[p] as int].header.id.id()
        < ns[#[trigger] ix[q] as int].header.id.id() by {
        assert(pair_le(pairs[p], pairs[q]));
        assert(pairs[p].1 < ns.len() && pairs[q].1 < ns.len());
        assert(pairs[p].1 != pairs[q].1);
        assert(pairs[p].0 == ns[ix[p] as int].header.id.id());
        assert(pairs[q].0 == ns[ix[q] as int].header.id.id());
        if ns[ix[p] as int].header.id.id() == ns[ix[q] as int].header.id.id() {
            super::node::lemma_node_id_ext(ns[ix[p] as int].header.id, ns[ix[q] as int].header.id);
        }
    }
    assert forall|i: int| 0 <= i < ns.len() implies #[trigger] listed(ix, i) by {
        assert(ix[pos[i] as int] == i);
    }
}

/// With distinct symbols, the sorted pairs give a symbol index.
proof fn lemma_symbol_index(
    ns: Seq<Node>,
    pairs: Seq<(Vec<u8>, usize)>,
    pos: Seq<usize>,
    ix: Seq<usize>,
)
    requires
        symbols_sorted(ns, pairs, pos),
        unique_symbols(ns),
        ix.len() == pairs.len(),
        forall|p: int| 0 <= p < ix.len() ==> #[trigger] ix[p] == pairs[p].1,
    ensures
        symbol_index(ns, ix),
{
    assert forall|p: int| 0 <= p < ix.len() implies #[trigger] ix[p] < ns.len() by {
        assert(pairs[p].1 < ns.len());
    }
    assert forall|p: int, q: int| 0 <= p < q < ix.len() implies text_lt(
        ns[#[trigger] ix[p] as int].header.symbol@,
        ns[#[trigger] ix[q] as int].header.symbol@,
    ) by {
        assert(bytes_pair_le(pairs[p], pairs[q]));
        assert(pairs[p].1 < ns.len() && pairs[q].1 < ns.len());
        assert(pairs[p].1 != pairs[q].1);
        assert(pairs[p].0@ == vstd::utf8::encode_utf8(ns[ix[p] as int].header.symbol@));
        assert(pairs[q].0@ == vstd::utf8::encode_utf8(ns[ix[q] as int].header.symbol@));
        lemma_symbol_bytes(ns[ix[p] as int].header.symbol@, ns[ix[q] as int].header.symbol@);
    }
    assert forall|i: int| 0 <= i < ns.len() implies #[trigger] listed(ix, i) by {
        assert(ix[pos[i] as int] == i);
    }
}

/// Finds the position of the node with identity `id`.
pub(crate) fn find_id(nodes: &Vec<Node>, by_id: &Vec<usize>, id: NodeId) -> (r: Option<usize>)
    requires
        unique_ids(nodes@),
        id_index(nodes@, by_id@),
    ensures
        match r {
            Some(i) => i < nodes@.len() && nodes@[i as int].header.id == id && i == index_of(
                nodes@,
                id,
            ),
            None => !has_id(nodes@, id),
        },
{
    let key = id.get();
    let mut lo: usize = 0;
    let mut hi: usize = by_id.len();
    while lo < hi
        invariant
            unique_ids(nodes@),
            id_index(nodes@, by_id@),
            key == id.id(),
            0 <= lo <= hi <= by_id@.len(),
            forall|p: int| 0 <= p < lo ==> nodes@[#[trigger] by_id@[p] as int].header.id.id() < key,
            forall|p: int| hi <= p < by_id@.len() ==> nodes@[#[trigger] by_id@[p] as int].header.id.id() > key,
        decreases hi - lo,
    {
        let mid = lo + (hi - lo) / 2;
        let i = by_id[mid];
        let k = nodes[i].header.id.get();
        if k == key {
            proof {
                super::node::lemma_node_id_ext(nodes@[i as int].header.id, id);
                lemma_index_of_node(nodes@, i as int);
            }
            return Some(i);
        } else if k < key {
            proof {
                assert forall|p: int| 0 <= p < mid + 1 implies nodes@[#[trigger] by_id@[p] as int].header.id.id() < key by {
                    if p < mid {
                        assert(nodes@[by_id@[p] as int].header.id.id() < nodes@[by_id@[mid as int] as int].header.id.id());
                    }
                }
            }
            lo = mid + 1;
        } else {
            proof {
                assert forall|p: int| mid <= p < by_id@.len() implies nodes@[#[trigger] by_id@[p] as int].header.id.id() > key by {
                    if p > mid {
                        assert(nodes@[by_id@[mid as int] as int].header.id.id() < nodes@[by_id@[p] as int].header.id.id());
                    }
                }
            }
            hi = mid;
        }
    }
    proof {
        if has_id(nodes@, id) {
            let i = choose|i: int| 0 <= i < nodes@.len() && (#[trigger] nodes@[i]).header.id == id;
            assert(listed(by_id@, i));
            let p = choose|p: int| 0 <= p < by_id@.len() && #[trigger] by_id@[p] == i;
            assert(nodes@[by_id@[p] as int].header.id.id() == key);
        }
    }
    None
}

/// Checks child references, nodes taken by identity and children in order; returns the first
/// dangling one.
fn check_references(nodes: &Vec<Node>, by_id: &Vec<usize>) -> (r: Option<(usize, usize)>)
    requires
        unique_ids(nodes@),
        id_index(nodes@, by_id@),
    ensures
        match r {
            Some((i, c)) => i < nodes@.len() && c < nodes@[i as int].body.children().len()
                && first_dangling(nodes@, i as int, c as int),
            None => refs_closed(nodes@),
        },
{
    let n = by_id.len();
    let mut p: usize = 0;
    while p < n
        invariant
            n == by_id@.len(),
            unique_ids(nodes@),
            id_index(nodes@, by_id@),
            0 <= p <= n,
            forall|q: int, c: int| 0 <= q < p ==> !#[trigger] dangling(nodes@, #[trigger] by_id@[q] as int, c),
        decreases n - p,
    {
        let i = by_id[p];
        let count = child_count(&nodes[i]);
        let mut c: usize = 0;
        while c < count
            invariant
                n == by_id@.len(),
                unique_ids(nodes@),
                id_index(nodes@, by_id@),
                0 <= p < n,
                i == by_id@[p as int],
                i < nodes@.len(),
                count == nodes@[i as int].body.children().len(),
                0 <= c <= count,
                forall|c2: int| 0 <= c2 < c ==> !#[trigger] dangling(nodes@, i as int, c2),
                forall|q: int, c2: int| 0 <= q < p ==> !#[trigger] dangling(nodes@, #[trigger] by_id@[q] as int, c2),
            decreases count - c,
        {
            let child = child_at(&nodes[i], c);
            match find_id(nodes, by_id, child) {
                None => {
                    proof {
                        assert(dangling(nodes@, i as int, c as int));
                        assert forall|i2: int, c2: int|
                            0 <= i2 < nodes@.len() && nodes@[i2].header.id.id() < nodes@[i as int].header.id.id()
                            implies !#[trigger] dangling(nodes@, i2, c2) by {
                            assert(listed(by_id@, i2));
                            let q = choose|q: int| 0 <= q < by_id@.len() && #[trigger] by_id@[q] == i2;
                            if q >= p {
                                if q > p {
                                    assert(nodes@[by_id@[p as int] as int].header.id.id() < nodes@[by_id@[q] as int].header.id.id());
                                }
                            }
                        }
                    }
                    return Some((i, c));
                },
                Some(_) => {},
            }
            c = c + 1;
        }
        proof {
            assert forall|q: int, c2: int| 0 <= q < p + 1 implies !#[trigger] dangling(nodes@, #[trigger] by_id@[q] as int, c2) by {
                if q == p {
                    if 0 <= c2 < count {
                        assert(!dangling(nodes@, i as int, c2));
                    }
                }
            }
        }
        p = p + 1;
    }
    proof {
        assert forall|i: int, c: int| 0 <= i < nodes@.len() && 0 <= c < nodes@[i].body.children().len() implies has_id(
            nodes@,
            #[trigger] nodes@[i].body.children()[c],
        ) by {
            assert(listed(by_id@, i));
            let q = choose|q: int| 0 <= q < by_id@.len() && #[trigger] by_id@[q] == i;
            assert(!dangling(nodes@, by_id@[q] as int, c));
        }
    }
    None
}

/// The empty catalog.
impl Default for CatalogSnapshot {
    fn default() -> (s: Self)
        ensures
            s.nodes() == Seq::<Node>::empty(),
    {
        CatalogSnapshot {
            nodes: Vec::new(),
            by_id: Vec::new(),
            by_symbol: Vec::new(),
            finish: Vec::new(),
            rank: Ghost(Seq::empty()),
        }
    }
}

} // verus!
