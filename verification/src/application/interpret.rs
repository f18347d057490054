//! Interpreting a checked program: queries on one snapshot, or every statement in order
//! inside a write transaction.

use vstd::prelude::*;

use super::command::{CheckedProgram, Op};
use super::ports::CatalogWrite;
use super::runtime::{
    domain_diagnostic, filter_matches, internal_program_mismatch, keeps, mismatch_error, node_view, shows,
    unknown_symbol, unknown_symbol_error,
};
use super::search::{
    found_hits, node_named, names_node, resolved_root, root_ok, root_view, search, MatchAlgorithm, SearchSettings,
};
use super::value::{NodeView, Value};
use crate::diagnostic::Diagnostic;
use crate::domain::catalog::{holds_node, lists_node};
use crate::domain::graph::{canonical_xml, refs_closed};
use crate::domain::{CatalogSnapshot, Node, SearchField};
use crate::order::text_lt;

verus! {

/// The field a search statement uses: its own, or the configured default.
pub open spec fn field_of(field: Option<SearchField>, settings: SearchSettings) -> SearchField {
    match field {
        Some(f) => f,
        None => settings.default_field,
    }
}

/// `v` shows a node that the filter keeps.
pub open spec fn listed_view(ns: Seq<Node>, filter: super::command::NodeFilter, v: NodeView) -> bool {
    exists|i: int| 0 <= i < ns.len() && keeps(filter, ns[i].header.kind) && #[trigger] shows(ns, ns[i], v)
}

/// `vs` lists the nodes a filter keeps, in symbol order.
pub open spec fn listing(ns: Seq<Node>, filter: super::command::NodeFilter, vs: Seq<NodeView>) -> bool {
    &&& forall|t: int| 0 <= t < vs.len() ==> #[trigger] listed_view(ns, filter, vs[t])
    &&& forall|i: int| 0 <= i < ns.len() && keeps(filter, (#[trigger] ns[i]).header.kind) ==> exists|t: int|
        0 <= t < vs.len() && vs[t].id == ns[i].header.id
    &&& forall|a: int, b: int| 0 <= a < b < vs.len() ==> text_lt((#[trigger] vs[a]).symbol@, (#[trigger] vs[b]).symbol@)
}

/// `v` is the value of query `op` on the catalog `ns`.
pub open spec fn query_value(ns: Seq<Node>, op: Op, settings: SearchSettings, v: Value) -> bool {
    match op {
        Op::List { filter } => v matches Value::Nodes(vs) && listing(ns, filter, vs@),
        Op::Inspect { target } => v matches Value::Node(view) && shows(ns, node_named(ns, target@), view),
        Op::Search { query, field, root } => v matches Value::SearchResults(hits) && found_hits(
            ns,
            resolved_root(ns, match root { Some(s) => Some(s@), None => None }),
            settings.matcher,
            field_of(field, settings),
            query@,
            hits@,
        ),
        Op::RenderXml { root } => v matches Value::Xml(bytes) && bytes@ == canonical_xml(ns, node_named(ns, root@).header.id),
        _ => false,
    }
}

/// Query `op` surely succeeds on `ns`: its symbols name nodes (a prompt for a search root),
/// and a search is exact.
pub open spec fn query_succeeds(ns: Seq<Node>, op: Op, settings: SearchSettings) -> bool {
    match op {
        Op::List { .. } => true,
        Op::Inspect { target } => names_node(ns, target@),
        Op::Search { root, .. } => settings.matcher == MatchAlgorithm::Exact && root_ok(
            ns,
            match root { Some(s) => Some(s@), None => None },
        ),
        Op::RenderXml { root } => names_node(ns, root@),
        _ => false,
    }
}

fn lemma_named(snapshot: &CatalogSnapshot, node: &Node, symbol: &crate::domain::Symbol)
    requires
        node.header.symbol@ == symbol@,
        exists|i: int| 0 <= i < snapshot.nodes().len() && snapshot.nodes()[i] == *node,
        crate::domain::catalog::unique_symbols(snapshot.nodes()),
    ensures
        names_node(snapshot.nodes(), symbol@),
        node_named(snapshot.nodes(), symbol@) == *node,
{
    let ghost ns = snapshot.nodes();
    proof {
        let i = choose|i: int| 0 <= i < ns.len() && ns[i] == *node;
        assert(ns[i].header.symbol@ == symbol@);
        let w = choose|w: int| 0 <= w < ns.len() && (#[trigger] ns[w]).header.symbol@ == symbol@;
        assert(w == i);
    }
}

/// The nodes a filter keeps, in symbol order.
pub fn list_nodes(snapshot: &CatalogSnapshot, filter: super::command::NodeFilter) -> (views: Vec<NodeView>)
    ensures
        listing(snapshot.nodes(), filter, views@),
{
    let ghost ns = snapshot.nodes();
    let nodes = snapshot.iter_by_symbol();
    let mut views: Vec<NodeView> = Vec::new();
    let ghost mut from: Seq<int> = Seq::empty();
    let mut p: usize = 0;
    while p < nodes.len()
        invariant
            ns == snapshot.nodes(),
            refs_closed(ns),
            0 <= p <= nodes@.len(),
            nodes@.len() == ns.len(),
            forall|q: int| 0 <= q < nodes@.len() ==> #[trigger] holds_node(ns, *nodes@[q]),
            forall|i: int| 0 <= i < ns.len() ==> #[trigger] lists_node(nodes@, ns[i]),
            forall|q1: int, q2: int| 0 <= q1 < q2 < nodes@.len() ==> text_lt((#[trigger] nodes@[q1]).header.symbol@, (#[trigger] nodes@[q2]).header.symbol@),
            from.len() == views@.len(),
            forall|t: int| 0 <= t < views@.len() ==> 0 <= #[trigger] from[t] < p,
            forall|a: int, b: int| 0 <= a < b < views@.len() ==> #[trigger] from[a] < #[trigger] from[b],
            forall|t: int| 0 <= t < views@.len() ==> #[trigger] listed_view(ns, filter, views@[t]) && views@[t].symbol@ == nodes@[from[t]].header.symbol@,
            forall|q: int| 0 <= q < p && keeps(filter, (#[trigger] nodes@[q]).header.kind) ==> exists|t: int|
                0 <= t < views@.len() && views@[t].id == nodes@[q].header.id,
        decreases nodes@.len() - p,
    {
        let node = nodes[p];
        proof {
            assert(holds_node(ns, *nodes@[p as int]));
        }
        let ghost before = views@;
        let ghost old_from = from;
        if filter_matches(filter, node.header.kind) {
            proof {
                let i = choose|i: int| 0 <= i < ns.len() && ns[i] == *node;
                assert forall|k: int| 0 <= k < node.body.children().len() implies crate::domain::graph::has_id(ns, #[trigger] node.body.children()[k]) by {
                    assert(crate::domain::graph::has_id(ns, ns[i].body.children()[k]));
                }
            }
            match node_view(snapshot, node) {
                Ok(view) => {
                    views.push(view);
                    proof {
                        from = from.push(p as int);
                        let i = choose|i: int| 0 <= i < ns.len() && ns[i] == *node;
                        assert(shows(ns, ns[i], views@[before.len() as int]));
                        assert(listed_view(ns, filter, views@[before.len() as int]));
                        assert forall|t: int| 0 <= t < views@.len() implies #[trigger] listed_view(ns, filter, views@[t]) && views@[t].symbol@ == nodes@[from[t]].header.symbol@ by {
                            if t < before.len() {
                                assert(views@[t] == before[t]);
                                assert(from[t] == old_from[t]);
                            }
                        }
                    }
                },
                Err(_) => {},
            }
        }
        proof {
            assert forall|q: int| 0 <= q < p + 1 && keeps(filter, (#[trigger] nodes@[q]).header.kind) implies exists|t: int|
                0 <= t < views@.len() && views@[t].id == nodes@[q].header.id by {
                if q < p {
                    let t = choose|t: int| 0 <= t < before.len() && before[t].id == nodes@[q].header.id;
                    assert(views@[t] == before[t]);
                } else {
                    assert(views@[before.len() as int].id == nodes@[q].header.id);
                }
            }
        }
        p = p + 1;
    }
    proof {
        assert forall|i: int| 0 <= i < ns.len() && keeps(filter, (#[trigger] ns[i]).header.kind) implies exists|t: int|
            0 <= t < views@.len() && views@[t].id == ns[i].header.id by {
            assert(lists_node(nodes@, ns[i]));
            let q = choose|q: int| 0 <= q < nodes@.len() && *nodes@[q] == ns[i];
            assert(keeps(filter, nodes@[q].header.kind));
        }
        assert forall|a: int, b: int| 0 <= a < b < views@.len() implies text_lt((#[trigger] views@[a]).symbol@, (#[trigger] views@[b]).symbol@) by {
            assert(from[a] < from[b]);
            assert(listed_view(ns, filter, views@[a]) && views@[a].symbol@ == nodes@[from[a]].header.symbol@);
            assert(listed_view(ns, filter, views@[b]) && views@[b].symbol@ == nodes@[from[b]].header.symbol@);
            assert(0 <= from[a] && from[b] < nodes@.len());
            assert(text_lt(nodes@[from[a]].header.symbol@, nodes@[from[b]].header.symbol@));
        }
    }
    views
}

/// Interprets one query on a snapshot.
pub fn interpret_query(op: &Op, snapshot: &CatalogSnapshot, settings: SearchSettings) -> (r: Result<Value, Diagnostic>)
    ensures
        r matches Ok(v) ==> query_value(snapshot.nodes(), *op, settings, v),
        query_succeeds(snapshot.nodes(), *op, settings) ==> r is Ok,
        op is Inspect && !names_node(snapshot.nodes(), op->Inspect_target@) ==> (r matches Err(d)
            && unknown_symbol_error(d, op->Inspect_target@)),
        op is RenderXml && !names_node(snapshot.nodes(), op->RenderXml_root@) ==> (r matches Err(d)
            && unknown_symbol_error(d, op->RenderXml_root@)),
        !(op is List || op is Inspect || op is Search || op is RenderXml) ==> (r matches Err(d) && mismatch_error(d)),
{
    let ghost ns = snapshot.nodes();
    match op {
        Op::List { filter } => Ok(Value::Nodes(list_nodes(snapshot, *filter))),
        Op::Inspect { target } => match snapshot.get_by_symbol(target) {
            Some(node) => {
                lemma_named(snapshot, node, target);
                proof {
                    let i = choose|i: int| 0 <= i < ns.len() && ns[i] == *node;
                    assert forall|k: int| 0 <= k < node.body.children().len() implies crate::domain::graph::has_id(ns, #[trigger] node.body.children()[k]) by {
                        assert(crate::domain::graph::has_id(ns, ns[i].body.children()[k]));
                    }
                }
                match node_view(snapshot, node) {
                    Ok(view) => Ok(Value::Node(view)),
                    Err(d) => Err(d),
                }
            },
            None => Err(unknown_symbol(target)),
        },
        Op::Search { query, field, root } => {
            let chosen = match field {
                Some(f) => *f,
                None => settings.default_field,
            };
            let root_ref = match root {
                Some(s) => Some(s),
                None => None,
            };
            match search(snapshot, query.as_str(), chosen, root_ref, settings.matcher) {
                Ok(hits) => Ok(Value::SearchResults(hits)),
                Err(d) => Err(d),
            }
        },
        Op::RenderXml { root } => match snapshot.get_by_symbol(root) {
            Some(node) => {
                lemma_named(snapshot, node, root);
                proof {
                    let i = choose|i: int| 0 <= i < ns.len() && ns[i] == *node;
                    assert(crate::domain::graph::has_id(ns, node.header.id));
                }
                match snapshot.render_xml_vec(node.header.id) {
                    Ok(bytes) => Ok(Value::Xml(bytes)),
                    Err(_) => Err(internal_program_mismatch()),
                }
            },
            None => Err(unknown_symbol(root)),
        },
        _ => Err(internal_program_mismatch()),
    }
}

/// Runs a program that only queries, every statement on the same snapshot.
pub fn interpret_read_only(program: &CheckedProgram, snapshot: &CatalogSnapshot, settings: SearchSettings) -> (r: Result<Vec<Value>, Diagnostic>)
    ensures
        r matches Ok(vs) ==> vs@.len() == program.ops@.len() && forall|i: int|
            0 <= i < vs@.len() ==> query_value(snapshot.nodes(), program.ops@[i], settings, #[trigger] vs@[i]),
        (forall|i: int| 0 <= i < program.ops@.len() ==> query_succeeds(snapshot.nodes(), #[trigger] program.ops@[i], settings))
            ==> r is Ok,
{
    let mut values: Vec<Value> = Vec::new();
    let mut i: usize = 0;
    while i < program.ops.len()
        invariant
            0 <= i <= program.ops@.len(),
            values@.len() == i,
            forall|k: int| 0 <= k < i ==> query_value(snapshot.nodes(), program.ops@[k], settings, #[trigger] values@[k]),
        decreases program.ops@.len() - i,
    {
        match interpret_query(&program.ops[i], snapshot, settings) {
            Ok(v) => values.push(v),
            Err(d) => {
                return Err(d);
            },
        }
        i = i + 1;
    }
    Ok(values)
}

} // verus!
