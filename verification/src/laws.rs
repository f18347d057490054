//! Properties that span several operations of the library.

use vstd::prelude::*;

use crate::domain::catalog::traversal::replacement_blocked;
use crate::domain::catalog::{holds_node, lists_node, unique_symbols, CatalogSnapshot};
use crate::order::text_lt;
use crate::domain::graph::{
    acyclic, children_of, has_id, index_of, is_path, lemma_index_of, linked, on_cycle, reaches,
    refs_closed, unique_ids,
};
use crate::domain::catalog::counts::{capped, counted};
use crate::domain::graph::occurrences;
use crate::domain::node::{Node, NodeId};
use crate::config::layers::{layer_keys, source_view, ConfigLayer, ProvenanceView, SourceView};
use crate::config::loaded::{provenance_through, set_by};
use crate::tui::action::UiAction;
use crate::config::schema::{ansi_names, ascii_lower, hex_char, valid_color_text};
use crate::tui::capability::{all_hex, color_of_text, named_color, radix16_digits};
use crate::tui::theme::Color;
use crate::tui::action::MoveDirection;
use crate::tui::layout::{class_for, sat_sub, Rect};
use crate::tui::model::{clamped, EffectView, step, step_cancel, step_confirm, step_delete, step_insert, step_submit, EditorView, Mode, ModelView};
use crate::config::text::levenshtein;
use crate::domain::graph::{escape, escape_byte};
use crate::application::search::exact_score;
use crate::domain::search::SearchField;
use crate::application::interpret::listing;
use crate::application::command::NodeFilter;
use crate::application::value::NodeView;
use crate::domain::node::NodeKind;
use crate::repl::{repl_next, trimmed, ReplDecision, ReplEvent};
use crate::cli::ReplOutcome;

verus! {

/// `after` is `ns` with the children of `parent` replaced by `cs`, every node keeping its
/// place and identity.
pub open spec fn replaced_children(ns: Seq<Node>, after: Seq<Node>, parent: NodeId, cs: Seq<NodeId>) -> bool {
    &&& after.len() == ns.len()
    &&& forall|i: int| 0 <= i < ns.len() ==> (#[trigger] after[i]).header.id == ns[i].header.id
    &&& forall|i: int|
        0 <= i < ns.len() ==> (#[trigger] after[i]).body.children() == if ns[i].header.id == parent {
            cs
        } else {
            ns[i].body.children()
        }
}

proof fn lemma_same_nodes(ns: Seq<Node>, after: Seq<Node>, parent: NodeId, cs: Seq<NodeId>)
    requires
        unique_ids(ns),
        replaced_children(ns, after, parent, cs),
    ensures
        unique_ids(after),
        forall|x: NodeId| #[trigger] has_id(after, x) <==> has_id(ns, x),
        forall|x: NodeId|
            has_id(ns, x) ==> #[trigger] children_of(after, x) == if x == parent {
                cs
            } else {
                children_of(ns, x)
            },
{
    assert forall|i: int, j: int|
        0 <= i < after.len() && 0 <= j < after.len() && i != j implies (#[trigger] after[i]).header.id
            != (#[trigger] after[j]).header.id by {
        assert(ns[i].header.id != ns[j].header.id);
    }
    assert forall|x: NodeId| #[trigger] has_id(after, x) <==> has_id(ns, x) by {
        if has_id(after, x) {
            let i = choose|i: int| 0 <= i < after.len() && (#[trigger] after[i]).header.id == x;
            assert(ns[i].header.id == x);
        }
        if has_id(ns, x) {
            let i = choose|i: int| 0 <= i < ns.len() && (#[trigger] ns[i]).header.id == x;
            assert(after[i].header.id == x);
        }
    }
    assert forall|x: NodeId| has_id(ns, x) implies #[trigger] children_of(after, x) == if x == parent {
        cs
    } else {
        children_of(ns, x)
    } by {
        lemma_index_of(ns, x);
        let i = index_of(ns, x);
        assert(after[i].header.id == x);
        assert(has_id(after, x));
        lemma_index_of(after, x);
    }
}

/// A walk of the replaced graph that meets `parent` at most at its end is a walk of the
/// original graph.
proof fn lemma_avoiding_path(
    ns: Seq<Node>,
    after: Seq<Node>,
    parent: NodeId,
    cs: Seq<NodeId>,
    p: Seq<NodeId>,
)
    requires
        unique_ids(ns),
        replaced_children(ns, after, parent, cs),
        is_path(after, p),
        forall|k: int| 0 <= k < p.len() - 1 ==> #[trigger] p[k] != parent,
    ensures
        is_path(ns, p),
{
    lemma_same_nodes(ns, after, parent, cs);
    assert forall|k: int| 0 <= k < p.len() implies has_id(ns, #[trigger] p[k]) by {
        assert(has_id(after, p[k]));
    }
    assert forall|k: int| 0 <= k < p.len() - 1 implies #[trigger] linked(ns, p, k) by {
        assert(linked(after, p, k));
        assert(has_id(after, p[k]));
        assert(p[k] != parent);
        assert(children_of(after, p[k]) == children_of(ns, p[k]));
    }
}

proof fn first_index(p: Seq<NodeId>, x: NodeId, k: int) -> (j: int)
    requires
        0 <= k < p.len(),
        p[k] == x,
    ensures
        0 <= j <= k,
        p[j] == x,
        forall|i: int| 0 <= i < j ==> #[trigger] p[i] != x,
    decreases k,
{
    if exists|i: int| 0 <= i < k && #[trigger] p[i] == x {
        let i = choose|i: int| 0 <= i < k && #[trigger] p[i] == x;
        first_index(p, x, i)
    } else {
        k
    }
}

proof fn last_index(p: Seq<NodeId>, x: NodeId, k: int, hi: int) -> (j: int)
    requires
        0 <= k < hi <= p.len(),
        p[k] == x,
    ensures
        k <= j < hi,
        p[j] == x,
        forall|i: int| j < i < hi ==> #[trigger] p[i] != x,
    decreases hi - k,
{
    if exists|i: int| k < i < hi && #[trigger] p[i] == x {
        let i = choose|i: int| k < i < hi && #[trigger] p[i] == x;
        last_index(p, x, i, hi)
    } else {
        k
    }
}

/// Replacing the children of a prompt by children that the catalog accepts for it (see
/// `CatalogSnapshot::validate_replacement`: every child exists and none of them reaches the
/// prompt) leaves the graph free of cycles and of dangling references.
pub proof fn law_accepted_replacement_keeps_catalog_acyclic(
    ns: Seq<Node>,
    parent: NodeId,
    cs: Seq<NodeId>,
    after: Seq<Node>,
)
    requires
        unique_ids(ns),
        refs_closed(ns),
        acyclic(ns),
        has_id(ns, parent),
        cs.len() > 0,
        forall|k: int| 0 <= k < cs.len() ==> !replacement_blocked(ns, parent, #[trigger] cs[k]),
        replaced_children(ns, after, parent, cs),
    ensures
        acyclic(after),
        refs_closed(after),
{
    lemma_same_nodes(ns, after, parent, cs);
    assert forall|i: int, c: int|
        0 <= i < after.len() && 0 <= c < after[i].body.children().len() implies has_id(
        after,
        #[trigger] after[i].body.children()[c],
    ) by {
        if ns[i].header.id == parent {
            assert(!replacement_blocked(ns, parent, cs[c]));
        } else {
            assert(has_id(ns, ns[i].body.children()[c]));
        }
    }
    assert forall|a: NodeId| !#[trigger] on_cycle(after, a) by {
        if on_cycle(after, a) {
            let p = choose|p: Seq<NodeId>| #[trigger] is_path(after, p) && p.len() >= 2 && p[0] == a && p.last() == a;
            let n = p.len() as int;
            if exists|k: int| 0 <= k < n - 1 && #[trigger] p[k] == parent {
                let k0 = choose|k: int| 0 <= k < n - 1 && #[trigger] p[k] == parent;
                let j = last_index(p, parent, k0, n - 1);
                let j0 = first_index(p, parent, k0);
                let q = p.subrange(j + 1, n) + p.subrange(1, j0 + 1);
                let s = p.subrange(j + 1, n);
                assert(linked(after, p, j));
                assert(children_of(after, parent) == cs);
                assert forall|t: int| 0 <= t < q.len() implies has_id(after, #[trigger] q[t]) by {
                    if t < s.len() {
                        assert(q[t] == p[j + 1 + t]);
                    } else {
                        assert(q[t] == p[t - s.len() + 1]);
                    }
                }
                assert forall|t: int| 0 <= t < q.len() - 1 implies #[trigger] linked(after, q, t) by {
                    if t < s.len() - 1 {
                        assert(q[t] == p[j + 1 + t] && q[t + 1] == p[j + 2 + t]);
                        assert(linked(after, p, j + 1 + t));
                    } else if t == s.len() - 1 {
                        assert(q[t] == p[n - 1] && q[t + 1] == p[1]);
                        assert(linked(after, p, 0));
                    } else {
                        assert(q[t] == p[t - s.len() + 1] && q[t + 1] == p[t - s.len() + 2]);
                        assert(linked(after, p, t - s.len() + 1));
                    }
                }
                assert(is_path(after, q));
                assert forall|t: int| 0 <= t < q.len() - 1 implies #[trigger] q[t] != parent by {
                    if t < s.len() - 1 {
                        assert(q[t] == p[j + 1 + t]);
                    } else if t == s.len() - 1 {
                        assert(q[t] == p[n - 1]);
                        if j0 > 0 {
                            assert(p[0] != parent);
                        }
                    } else {
                        assert(q[t] == p[t - s.len() + 1]);
                    }
                }
                lemma_avoiding_path(ns, after, parent, cs, q);
                assert(q.last() == parent) by {
                    if j0 == 0 {
                        assert(q.last() == p[n - 1]);
                    } else {
                        assert(q.last() == p[j0]);
                    }
                }
                assert(cs.contains(q[0]));
                let m = choose|m: int| 0 <= m < cs.len() && cs[m] == q[0];
                assert(reaches(ns, q[0], parent));
                assert(!replacement_blocked(ns, parent, cs[m]));
            } else {
                lemma_avoiding_path(ns, after, parent, cs, p);
                assert(on_cycle(ns, a));
            }
        }
    }
}

/// Two lists of identities, both strictly increasing and holding the same identities, are
/// the same list.
proof fn lemma_sorted_same_members(a: Seq<NodeId>, b: Seq<NodeId>)
    requires
        forall|i: int, j: int| 0 <= i < j < a.len() ==> (#[trigger] a[i]).id() < (#[trigger] a[j]).id(),
        forall|i: int, j: int| 0 <= i < j < b.len() ==> (#[trigger] b[i]).id() < (#[trigger] b[j]).id(),
        forall|x: NodeId| a.contains(x) <==> b.contains(x),
    ensures
        a == b,
    decreases a.len(),
{
    if a.len() == 0 {
        if b.len() > 0 {
            assert(b.contains(b[0]));
        }
    } else {
        assert(a.contains(a[0]));
        let m = choose|m: int| 0 <= m < b.len() && b[m] == a[0];
        if m > 0 {
            assert(b.contains(b[0]));
            let m2 = choose|m2: int| 0 <= m2 < a.len() && a[m2] == b[0];
            assert(b[0].id() < b[m].id());
            if m2 > 0 {
                assert(a[0].id() < a[m2].id());
            }
        }
        let ta = a.drop_first();
        let tb = b.drop_first();
        assert forall|x: NodeId| ta.contains(x) <==> tb.contains(x) by {
            if ta.contains(x) {
                let i = choose|i: int| 0 <= i < ta.len() && ta[i] == x;
                assert(a[i + 1] == x);
                assert(a[0].id() < a[i + 1].id());
                assert(a.contains(x));
                let k = choose|k: int| 0 <= k < b.len() && b[k] == x;
                assert(k != 0);
                assert(tb[k - 1] == x);
            }
            if tb.contains(x) {
                let i = choose|i: int| 0 <= i < tb.len() && tb[i] == x;
                assert(b[i + 1] == x);
                assert(b[0].id() < b[i + 1].id());
                assert(b.contains(x));
                let k = choose|k: int| 0 <= k < a.len() && a[k] == x;
                assert(k != 0);
                assert(ta[k - 1] == x);
            }
        }
        assert forall|i: int, j: int| 0 <= i < j < ta.len() implies (#[trigger] ta[i]).id() < (#[trigger] ta[j]).id() by {
            assert(a[i + 1].id() < a[j + 1].id());
        }
        assert forall|i: int, j: int| 0 <= i < j < tb.len() implies (#[trigger] tb[i]).id() < (#[trigger] tb[j]).id() by {
            assert(b[i + 1].id() < b[j + 1].id());
        }
        lemma_sorted_same_members(ta, tb);
        assert(a =~= seq![a[0]] + ta);
        assert(b =~= seq![b[0]] + tb);
    }
}

/// Whenever the exact occurrence counts of a root can be given, the saturating counts of
/// that root are the same list: capping only changes counts that do not fit in `u64`.
pub proof fn law_saturating_counts_agree_with_exact_counts(
    ns: Seq<Node>,
    root: NodeId,
    exact: Seq<(NodeId, u64)>,
    saturating: Seq<(NodeId, u64)>,
)
    requires
        counted(ns, root, exact, false),
        counted(ns, root, saturating, true),
    ensures
        exact == saturating,
{
    let a = exact.map_values(|e: (NodeId, u64)| e.0);
    let b = saturating.map_values(|e: (NodeId, u64)| e.0);
    assert forall|i: int, j: int| 0 <= i < j < a.len() implies (#[trigger] a[i]).id() < (#[trigger] a[j]).id() by {
        assert(exact[i].0.id() < exact[j].0.id());
    }
    assert forall|i: int, j: int| 0 <= i < j < b.len() implies (#[trigger] b[i]).id() < (#[trigger] b[j]).id() by {
        assert(saturating[i].0.id() < saturating[j].0.id());
    }
    assert forall|x: NodeId| a.contains(x) <==> b.contains(x) by {
        if a.contains(x) {
            let i = choose|i: int| 0 <= i < a.len() && a[i] == x;
            assert(reaches(ns, root, exact[i].0));
            let t = choose|t: int| 0 <= t < saturating.len() && (#[trigger] saturating[t]).0 == x;
            assert(b[t] == x);
        }
        if b.contains(x) {
            let i = choose|i: int| 0 <= i < b.len() && b[i] == x;
            assert(reaches(ns, root, saturating[i].0));
            let t = choose|t: int| 0 <= t < exact.len() && (#[trigger] exact[t]).0 == x;
            assert(a[t] == x);
        }
    }
    lemma_sorted_same_members(a, b);
    assert forall|t: int| 0 <= t < exact.len() implies exact[t] == saturating[t] by {
        assert(a[t] == b[t]);
        assert(exact[t].1 == occurrences(ns, root, exact[t].0));
        assert(saturating[t].1 == capped(occurrences(ns, root, saturating[t].0)));
    }
    assert(exact =~= saturating);
}

proof fn lemma_set_by_takes_source(previous: Option<ProvenanceView>, keys: Seq<Seq<char>>, source: SourceView, k: Seq<char>)
    requires
        keys.contains(k),
    ensures
        set_by(previous, keys, source, k) matches Some(p) && p.0 == source,
    decreases keys.len(),
{
    if keys.last() != k {
        let i = choose|i: int| 0 <= i < keys.len() && keys[i] == k;
        assert(keys.drop_last()[i] == k);
        lemma_set_by_takes_source(previous, keys.drop_last(), source, k);
    }
}

/// A key that the last configuration layer sets has that layer as its source, whatever
/// the earlier layers set and whatever it had before them.
pub proof fn law_last_layer_setting_a_key_is_its_source(
    base: Option<ProvenanceView>,
    layers: Seq<ConfigLayer>,
    last: ConfigLayer,
    k: Seq<char>,
)
    requires
        layer_keys(last.overlay).contains(k),
    ensures
        provenance_through(base, layers.push(last), k) matches Some(p) && p.0 == source_view(last.source),
{
    assert(layers.push(last).drop_last() =~= layers);
    lemma_set_by_takes_source(
        provenance_through(base, layers, k),
        layer_keys(last.overlay),
        source_view(last.source),
        k,
    );
}

/// A layer that does not set a key leaves its source and overridden sources as they were.
pub proof fn law_layer_not_setting_a_key_keeps_its_provenance(
    base: Option<ProvenanceView>,
    layers: Seq<ConfigLayer>,
    last: ConfigLayer,
    k: Seq<char>,
)
    requires
        !layer_keys(last.overlay).contains(k),
    ensures
        provenance_through(base, layers.push(last), k) == provenance_through(base, layers, k),
{
    assert(layers.push(last).drop_last() =~= layers);
    lemma_set_by_skips(provenance_through(base, layers, k), layer_keys(last.overlay), source_view(last.source), k);
}

proof fn lemma_set_by_skips(previous: Option<ProvenanceView>, keys: Seq<Seq<char>>, source: SourceView, k: Seq<char>)
    requires
        !keys.contains(k),
    ensures
        set_by(previous, keys, source, k) == previous,
    decreases keys.len(),
{
    if keys.len() > 0 {
        assert(keys.last() == keys[keys.len() - 1]);
        assert forall|i: int| 0 <= i < keys.drop_last().len() implies keys.drop_last()[i] != k by {
            assert(keys.drop_last()[i] == keys[i]);
        }
        lemma_set_by_skips(previous, keys.drop_last(), source, k);
    }
}

/// The selected row, if any, is a row of the catalog list.
pub open spec fn selection_in_catalog(m: ModelView) -> bool {
    match m.selected {
        Some(s) => s < m.catalog.len(),
        None => true,
    }
}

/// Every interface action keeps the selection on a row of the catalog list.
pub proof fn law_actions_keep_the_selection_in_the_catalog(m: ModelView, a: UiAction, given: Option<EditorView>)
    requires
        selection_in_catalog(m),
    ensures
        selection_in_catalog(step(m, a, given).0),
{
    match a {
        UiAction::Resize { width, height } => {
            let t = Rect { width, height, ..m.terminal };
            lemma_clamped_selection(ModelView { terminal: t, layout_class: class_for(width, height), ..m });
        },
        UiAction::MoveSelection(direction) => {
            if m.mode == Mode::Browse && m.catalog.len() > 0 {
                let current: int = match m.selected {
                    Some(s) => s as int,
                    None => 0,
                };
                let next: int = match direction {
                    MoveDirection::Previous => sat_sub(current, 1),
                    MoveDirection::Next => if current + 1 < m.catalog.len() - 1 {
                        current + 1
                    } else {
                        m.catalog.len() - 1
                    },
                };
                lemma_clamped_selection(ModelView { selected: Some(next as usize), ..m });
            }
        },
        UiAction::SelectNode(index) => {
            lemma_clamped_selection(ModelView { selected: Some(index), ..m });
        },
        UiAction::InsertText(text) => {
            assert(selection_in_catalog(step_insert(m, text@, given).0));
        },
        UiAction::DeleteBackward => {
            assert(selection_in_catalog(step_delete(m, given).0));
        },
        UiAction::Submit => {
            assert(selection_in_catalog(step_submit(m).0));
        },
        UiAction::Cancel => {
            assert(selection_in_catalog(step_cancel(m).0));
        },
        UiAction::Confirm => {
            assert(selection_in_catalog(step_confirm(m).0));
        },
        _ => {},
    }
}

proof fn lemma_clamped_selection(m: ModelView)
    ensures
        selection_in_catalog(clamped(m)),
{
}

/// A theme color that configuration accepts is drawn in a color of its own, never in the
/// terminal's default: `#` and six hexadecimal digits give that 24-bit color, and a named
/// ANSI color, in any case, gives that color.
pub proof fn law_accepted_theme_colors_are_drawn(s: Seq<char>)
    requires
        valid_color_text(s),
    ensures
        color_of_text(s) != Color::Reset,
{
    if s.len() == 7 && s[0] == '#' && forall|i: int| 1 <= i < 7 ==> hex_char(#[trigger] s[i]) {
        let d = s.drop_first();
        assert(d[0] != '+') by {
            assert(hex_char(s[1]));
        }
        assert(all_hex(d)) by {
            assert forall|i: int| 0 <= i < d.len() implies hex_char(#[trigger] d[i]) by {
                assert(d[i] == s[i + 1]);
            }
        }
        assert(radix16_digits(d) == Some(d));
    } else {
        let l = ascii_lower(s);
        assert(ansi_names().contains(l));
        let i = choose|i: int| 0 <= i < ansi_names().len() && ansi_names()[i] == l;
        assert(named_color(l) != Color::Reset);
    }
}

/// The edit distance between two texts is the same both ways round.
proof fn lemma_levenshtein_symmetric(a: Seq<char>, b: Seq<char>)
    ensures
        levenshtein(a, b) == levenshtein(b, a),
    decreases a.len() + b.len(),
{
    if a.len() > 0 && b.len() > 0 {
        lemma_levenshtein_symmetric(a.drop_last(), b);
        lemma_levenshtein_symmetric(a, b.drop_last());
        lemma_levenshtein_symmetric(a.drop_last(), b.drop_last());
    }
}

/// A text is at distance zero from itself.
proof fn lemma_levenshtein_reflexive(a: Seq<char>)
    ensures
        levenshtein(a, a) == 0,
    decreases a.len(),
{
    if a.len() > 0 {
        lemma_levenshtein_reflexive(a.drop_last());
    }
}

/// The edit distance (used to suggest the nearest known key) is symmetric, zero between
/// equal texts, and from the empty text the length of the other.
pub proof fn law_edit_distance_is_a_distance(a: Seq<char>, b: Seq<char>)
    ensures
        levenshtein(a, b) == levenshtein(b, a),
        levenshtein(a, a) == 0,
        levenshtein(a, Seq::<char>::empty()) == a.len(),
        levenshtein(Seq::<char>::empty(), a) == a.len(),
{
    lemma_levenshtein_symmetric(a, b);
    lemma_levenshtein_reflexive(a);
}

/// A lookup by symbol agrees with the symbol-ordered listing of a catalog: the node found is
/// the first listed node with that symbol, and when none is found no listed node has it.
/// (`listing` and `found` are what `iter_by_symbol` and `get_by_symbol` state of their
/// results.)
pub proof fn law_symbol_lookup_agrees_with_listing(
    ns: Seq<Node>,
    listing: Seq<&Node>,
    found: Option<&Node>,
    symbol: Seq<char>,
)
    requires
        unique_symbols(ns),
        forall|p: int, q: int| 0 <= p < q < listing.len() ==> text_lt((#[trigger] listing[p]).header.symbol@, (#[trigger] listing[q]).header.symbol@),
        forall|p: int| 0 <= p < listing.len() ==> #[trigger] holds_node(ns, *listing[p]),
        forall|i: int| 0 <= i < ns.len() ==> #[trigger] lists_node(listing, ns[i]),
        match found {
            Some(n) => n.header.symbol@ == symbol && holds_node(ns, *n),
            None => forall|i: int| 0 <= i < ns.len() ==> (#[trigger] ns[i]).header.symbol@ != symbol,
        },
    ensures
        match found {
            Some(n) => exists|p: int| 0 <= p < listing.len() && *listing[p] == *n && forall|q: int|
                0 <= q < p ==> (#[trigger] listing[q]).header.symbol@ != symbol,
            None => forall|p: int| 0 <= p < listing.len() ==> (#[trigger] listing[p]).header.symbol@ != symbol,
        },
{
    match found {
        Some(n) => {
            let i = choose|i: int| 0 <= i < ns.len() && ns[i] == *n;
            assert(lists_node(listing, ns[i]));
            let p = choose|p: int| 0 <= p < listing.len() && *listing[p] == ns[i];
            assert forall|q: int| 0 <= q < p implies (#[trigger] listing[q]).header.symbol@ != symbol by {
                if listing[q].header.symbol@ == symbol {
                    assert(text_lt(listing[q].header.symbol@, listing[p].header.symbol@));
                    crate::order::lemma_text_lt_irreflexive(symbol);
                }
            }
        },
        None => {
            assert forall|p: int| 0 <= p < listing.len() implies (#[trigger] listing[p]).header.symbol@ != symbol by {
                assert(holds_node(ns, *listing[p]));
                let i = choose|i: int| 0 <= i < ns.len() && ns[i] == *listing[p];
                assert(ns[i].header.symbol@ != symbol);
            }
        },
    }
}

/// A catalog holds exactly the nodes it was built from, so its length is their number and it
/// is empty exactly when there are none. (`built` is a catalog that `CatalogSnapshot::new`
/// returned for `nodes`.)
pub proof fn law_catalog_length_is_its_node_count(nodes: Seq<Node>, built: CatalogSnapshot)
    requires
        built.nodes() == nodes,
    ensures
        built.nodes().len() == nodes.len(),
        (built.nodes().len() == 0) == (nodes.len() == 0),
{
}

/// Text bytes read back from their escaped form: `&amp;`, `&lt;` and `&gt;` become `&`, `<`
/// and `>`; every other byte stays.
pub open spec fn unescaped_bytes(s: Seq<u8>) -> Seq<u8>
    decreases s.len(),
{
    if s.len() == 0 {
        s
    } else if s.len() >= 5 && s.take(5) == seq![38u8, 97u8, 109u8, 112u8, 59u8] {
        seq![38u8] + unescaped_bytes(s.skip(5))
    } else if s.len() >= 4 && s.take(4) == seq![38u8, 108u8, 116u8, 59u8] {
        seq![60u8] + unescaped_bytes(s.skip(4))
    } else if s.len() >= 4 && s.take(4) == seq![38u8, 103u8, 116u8, 59u8] {
        seq![62u8] + unescaped_bytes(s.skip(4))
    } else {
        seq![s[0]] + unescaped_bytes(s.drop_first())
    }
}

/// Escaping a text is escaping its parts one after the other.
proof fn lemma_escape_append(a: Seq<u8>, b: Seq<u8>)
    ensures
        escape(a + b) == escape(a) + escape(b),
    decreases b.len(),
{
    if b.len() == 0 {
        assert(a + b =~= a);
        assert(escape(a) + escape(b) =~= escape(a));
    } else {
        assert((a + b).drop_last() =~= a + b.drop_last());
        assert((a + b).last() == b.last());
        lemma_escape_append(a, b.drop_last());
        assert(escape(a + b) =~= escape(a) + escape(b));
    }
}

/// Reading back an escaped byte followed by anything gives the byte first.
proof fn lemma_unescape_head(b: u8, rest: Seq<u8>)
    ensures
        unescaped_bytes(escape_byte(b) + rest) == seq![b] + unescaped_bytes(rest),
{
    let s = escape_byte(b) + rest;
    let amp = seq![38u8, 97u8, 109u8, 112u8, 59u8];
    let lt = seq![38u8, 108u8, 116u8, 59u8];
    let gt = seq![38u8, 103u8, 116u8, 59u8];
    if b == 38 {
        assert(s.take(5) =~= amp);
        assert(s.skip(5) =~= rest);
    } else if b == 60 {
        if s.len() >= 5 {
            assert(s.take(5)[1] != amp[1]);
        }
        assert(s.take(4) =~= lt);
        assert(s.skip(4) =~= rest);
    } else if b == 62 {
        if s.len() >= 5 {
            assert(s.take(5)[1] != amp[1]);
        }
        assert(s.take(4)[1] != lt[1]);
        assert(s.take(4) =~= gt);
        assert(s.skip(4) =~= rest);
    } else {
        assert(s[0] == b);
        if s.len() >= 5 {
            assert(s.take(5)[0] != amp[0]);
        }
        if s.len() >= 4 {
            assert(s.take(4)[0] != lt[0]);
            assert(s.take(4)[0] != gt[0]);
        }
        assert(s.drop_first() =~= rest);
    }
}

/// Rendered fragment text reads back as the text: escaping changes only `&`, `<` and `>`,
/// into `&amp;`, `&lt;` and `&gt;`, and reading those back gives every byte of the text in
/// order (a newline, a quote or any other byte is copied unchanged).
pub proof fn law_escaped_text_reads_back(s: Seq<u8>)
    ensures
        unescaped_bytes(escape(s)) == s,
    decreases s.len(),
{
    if s.len() > 0 {
        let rest = s.drop_first();
        lemma_escape_append(seq![s[0]], rest);
        assert(seq![s[0]] + rest =~= s);
        let one = seq![s[0]];
        assert(one.drop_last() =~= Seq::<u8>::empty());
        assert(one.last() == s[0]);
        assert(escape(Seq::<u8>::empty()) =~= Seq::<u8>::empty());
        assert(escape(one) == escape(one.drop_last()) + escape_byte(one.last()));
        assert(escape(one) =~= escape_byte(s[0]));
        lemma_unescape_head(s[0], escape(rest));
        law_escaped_text_reads_back(rest);
        assert(seq![s[0]] + rest =~= s);
    }
}

/// A text without `&`, `<` or `>` is rendered byte for byte.
pub proof fn law_plain_text_is_rendered_unchanged(s: Seq<u8>)
    requires
        forall|i: int| 0 <= i < s.len() ==> s[i] != 38u8 && s[i] != 60u8 && s[i] != 62u8,
    ensures
        escape(s) == s,
    decreases s.len(),
{
    if s.len() > 0 {
        law_plain_text_is_rendered_unchanged(s.drop_last());
        assert(escape(s) =~= s.drop_last() + seq![s.last()]);
        assert(s.drop_last() + seq![s.last()] =~= s);
    }
}

/// Whether a text occurs in another, at some position.
pub open spec fn appears_in(hay: Seq<char>, needle: Seq<char>) -> bool {
    exists|i: int| 0 <= i && i + needle.len() <= hay.len() && #[trigger] hay.subrange(i, i + needle.len()) == needle
}

/// An exact search finds a candidate, with score 1, exactly when the query occurs in what
/// the field looks at: the title, the content, or (mixed) either of them. So the mixed hits
/// are the title hits together with the content hits.
pub proof fn law_exact_search_hits(query: Seq<char>, title: Seq<char>, content: Seq<char>)
    ensures
        exact_score(SearchField::Title, query, title, content) is Some <==> appears_in(title, query),
        exact_score(SearchField::Content, query, title, content) is Some <==> appears_in(content, query),
        exact_score(SearchField::Mixed, query, title, content) is Some <==> (appears_in(title, query) || appears_in(
            content,
            query,
        )),
        exact_score(SearchField::Mixed, query, title, content) is Some <==> (exact_score(
            SearchField::Title,
            query,
            title,
            content,
        ) is Some || exact_score(SearchField::Content, query, title, content) is Some),
        forall|f: SearchField| #[trigger] exact_score(f, query, title, content) is Some ==> exact_score(f, query, title, content)
            == Some(1u16),
{
}

/// A filtered listing holds exactly the nodes of the filter's kind: with the prompt filter
/// every listed node is a prompt and every prompt is listed, with the fragment filter the
/// same for fragments, and without a filter every node is listed.
pub proof fn law_listing_keeps_the_filters_kind(ns: Seq<Node>, filter: NodeFilter, vs: Seq<NodeView>)
    requires
        listing(ns, filter, vs),
    ensures
        filter == NodeFilter::Prompts ==> forall|t: int| 0 <= t < vs.len() ==> (#[trigger] vs[t]).kind == NodeKind::Prompt,
        filter == NodeFilter::Fragments ==> forall|t: int| 0 <= t < vs.len() ==> (#[trigger] vs[t]).kind == NodeKind::Fragment,
        forall|i: int|
            0 <= i < ns.len() && (filter == NodeFilter::All || (filter == NodeFilter::Prompts && (#[trigger] ns[i]).header.kind
                == NodeKind::Prompt) || (filter == NodeFilter::Fragments && ns[i].header.kind == NodeKind::Fragment)) ==> exists|t: int|
                0 <= t < vs.len() && vs[t].id == ns[i].header.id,
{
    assert forall|t: int| 0 <= t < vs.len() implies (filter == NodeFilter::Prompts ==> (#[trigger] vs[t]).kind == NodeKind::Prompt)
        && (filter == NodeFilter::Fragments ==> vs[t].kind == NodeKind::Fragment) by {
        assert(crate::application::interpret::listed_view(ns, filter, vs[t]));
        let i = choose|i: int| 0 <= i < ns.len() && crate::application::runtime::keeps(filter, ns[i].header.kind) && #[trigger] crate::application::runtime::shows(ns, ns[i], vs[t]);
    }
}

/// Moving the selection in the catalog goes exactly one row: to the next row, or the last
/// row at the end of the catalog; to the previous row, or the first row at its start (no
/// selection counts as the first row, and a selection past the end as the last). The
/// catalog stays, and the preview of the newly selected symbol is loaded in the shown tab.
/// (A model's catalog is a list, so its length fits in `usize`.)
pub proof fn law_selection_moves_one_row(m: ModelView, direction: MoveDirection, given: Option<EditorView>)
    requires
        m.mode == Mode::Browse,
        0 < m.catalog.len() <= usize::MAX,
    ensures
        ({
            let len = m.catalog.len() as int;
            let current: int = match m.selected {
                Some(s) => s as int,
                None => 0,
            };
            let target: int = if direction == MoveDirection::Next {
                if current + 1 < len { current + 1 } else { len - 1 }
            } else if current - 1 < 0 {
                0
            } else if current - 1 < len {
                current - 1
            } else {
                len - 1
            };
            let (after, effects) = step(m, UiAction::MoveSelection(direction), given);
            &&& after.selected == Some(target as usize)
            &&& after.catalog == m.catalog
            &&& effects == seq![EffectView::LoadPreview { symbol: m.catalog[target], tab: m.preview_tab }]
        }),
{
    let (after, effects) = step(m, UiAction::MoveSelection(direction), given);
    let len = m.catalog.len() as int;
    let current: int = match m.selected {
        Some(s) => s as int,
        None => 0,
    };
    let target: int = if direction == MoveDirection::Next {
        if current + 1 < len { current + 1 } else { len - 1 }
    } else if current - 1 < 0 {
        0
    } else if current - 1 < len {
        current - 1
    } else {
        len - 1
    };
    assert(after.selected == Some(target as usize));
    assert(after.catalog == m.catalog);
    assert(crate::tui::model::selected_symbol_of(after) == Some(m.catalog[target]));
}

/// At the start of a statement, a line that reads `:quit`, `:q`, `quit` or `exit` (around
/// whitespace) ends the session as completed, keeping nothing.
pub proof fn law_quit_words_end_the_session(line: String)
    requires
        trimmed(line@) == ":quit"@ || trimmed(line@) == ":q"@ || trimmed(line@) == "quit"@ || trimmed(line@) == "exit"@,
    ensures
        repl_next(Seq::<char>::empty(), ReplEvent::Line(line)) == (Seq::<char>::empty(), ReplDecision::Finish(ReplOutcome::Completed)),
{
    reveal_strlit(":quit");
    reveal_strlit(":q");
    reveal_strlit("quit");
    reveal_strlit("exit");
}

} // verus!
