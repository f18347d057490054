//! Searching fragments by title and content, fuzzily or as exact substrings, over the whole
//! catalog or under one prompt.

use vstd::prelude::*;

use crate::application::runtime::{domain_diagnostic, unknown_symbol, unknown_symbol_error};
use crate::diagnostic::{plain_error, Diagnostic, DiagnosticCategory};
use crate::domain::catalog::counts::{capped, counted};
use crate::domain::catalog::{holds_node, lists_node};
use crate::domain::graph::{has_id, occurrences, reaches};
use crate::domain::search::ranks_before;
use crate::domain::{CatalogSnapshot, Node, NodeBody, NodeId, NodeKind, SearchField, SearchHit, Symbol};
use crate::order::text_lt;
use vstd::std_specs::iter::IteratorSpec;
use vstd::utf8::encode_utf8;

verus! {

#[verifier::external_type_specification]
#[verifier::external_body]
pub struct ExFuzzyMatcher(nucleo_matcher::Matcher);

/// The algorithm a search matches with.
#[derive(Debug, Clone, Copy, PartialEq, Eq)]
pub enum MatchAlgorithm {
    /// Fuzzy matching with path-aware bonuses.
    Fuzzy,
    /// Case-sensitive substring matching.
    Exact,
}

/// The search configuration fixed for one evaluation.
#[derive(Debug, Clone, Copy, PartialEq, Eq)]
pub struct SearchSettings {
    /// Field used when a statement names none.
    pub default_field: SearchField,
    /// Matching algorithm.
    pub matcher: MatchAlgorithm,
}

/// `needle` occurs in `hay` as a run of consecutive characters.
pub open spec fn occurs_in(hay: Seq<char>, needle: Seq<char>) -> bool {
    exists|i: int| 0 <= i && i + needle.len() <= hay.len() && #[trigger] hay.subrange(i, i + needle.len()) == needle
}

/// The characters of a text.
pub fn chars_of(s: &str) -> (v: Vec<char>)
    ensures
        v@ == s@,
{
    let mut it = s.chars();
    let ghost whole = s@;
    let mut out: Vec<char> = Vec::new();
    broadcast use vstd::string::group_string_axioms;
    loop
        invariant
            whole == s@,
            out@.len() <= whole.len(),
            it.remaining() == whole.skip(out@.len() as int),
            out@ == whole.take(out@.len() as int),
        decreases whole.len() - out@.len(),
    {
        match it.next() {
            None => {
                assert(whole.skip(out@.len() as int).len() == 0);
                assert(out@ =~= whole);
                return out;
            },
            Some(c) => {
                let ghost k = out@.len() as int;
                assert(c == whole[k]);
                out.push(c);
                proof {
                    assert(out@ =~= whole.take(k + 1));
                    assert(whole.skip(k + 1) =~= whole.skip(k).drop_first());
                }
            },
        }
    }
}

/// Whether `needle` occurs in `hay` (the behaviour of `str::contains` with a text pattern).
pub fn contains_text(hay: &str, needle: &str) -> (b: bool)
    ensures
        b == occurs_in(hay@, needle@),
{
    let h = chars_of(hay);
    let n = chars_of(needle);
    if n.len() > h.len() {
        proof {
            assert forall|i: int| 0 <= i && i + n@.len() <= h@.len() implies #[trigger] h@.subrange(i, i + n@.len()) != n@ by {}
        }
        return false;
    }
    let hl = h.len();
    let last = hl - n.len();
    let mut i: usize = 0;
    while i <= last
        invariant
            h@ == hay@,
            n@ == needle@,
            hl == h@.len(),
            last == h@.len() - n@.len(),
            n@.len() <= h@.len(),
            0 <= i <= last + 1,
            forall|j: int| 0 <= j < i ==> #[trigger] h@.subrange(j, j + n@.len()) != n@,
        decreases last + 1 - i,
    {
        let mut k: usize = 0;
        let mut same = true;
        while k < n.len()
            invariant
                h@ == hay@,
                n@ == needle@,
                i <= last,
                hl == h@.len(),
                last == h@.len() - n@.len(),
                n@.len() <= h@.len(),
                0 <= k <= n@.len(),
                same == forall|t: int| 0 <= t < k ==> h@[i + t] == #[trigger] n@[t],
            decreases n@.len() - k,
        {
            if h[i + k] != n[k] {
                same = false;
            }
            k = k + 1;
        }
        if same {
            proof {
                assert(h@.subrange(i as int, i + n@.len()) =~= n@);
            }
            return true;
        }
        proof {
            let t = choose|t: int| 0 <= t < n@.len() && h@[i + t] != #[trigger] n@[t];
            assert(h@.subrange(i as int, i + n@.len())[t] != n@[t]);
        }
        if i == last {
            return false;
        }
        i = i + 1;
    }
    false
}

/// A matcher configured as the catalog search uses it (path-aware bonuses).
#[verifier::external_body]
fn new_fuzzy_matcher() -> nucleo_matcher::Matcher {
    nucleo_matcher::Matcher::new(nucleo_matcher::Config::DEFAULT.match_paths())
}

/// Calls `Matcher::fuzzy_match` of nucleo-matcher with `haystack` and `needle` turned into
/// its `Utf32Str` form. That form is the text's bytes when the text is ASCII or each of its
/// graphemes starts with an ASCII character, and one character per grapheme otherwise; the
/// matcher panics when it is longer than `u32::MAX`, so `requires` bounds the haystack's
/// UTF-8 length, which bounds both. An empty needle matches every haystack with score 0.
/// Nothing more is claimed of the score: the matcher's bonuses depend on the platform it
/// was built for.
#[verifier::external_body]
fn fuzzy_match(matcher: &mut nucleo_matcher::Matcher, haystack: &str, needle: &str) -> (r: Option<u16>)
    requires
        encode_utf8(haystack@).len() <= u32::MAX,
    ensures
        needle@.len() == 0 ==> r == Some(0u16),
{
    let mut haystack_buf = Vec::new();
    let mut needle_buf = Vec::new();
    matcher.fuzzy_match(
        nucleo_matcher::Utf32Str::new(haystack, &mut haystack_buf),
        nucleo_matcher::Utf32Str::new(needle, &mut needle_buf),
    )
}

/// Whether a text is short enough for the fuzzy matcher: at most `u32::MAX` UTF-8 bytes.
pub open spec fn matcher_fits(text: Seq<char>) -> bool {
    encode_utf8(text).len() <= u32::MAX
}

/// Whether the fields a fuzzy search scores are short enough for the matcher.
pub open spec fn fuzzy_fits(field: SearchField, title: Seq<char>, content: Seq<char>) -> bool {
    match field {
        SearchField::Title => matcher_fits(title),
        SearchField::Content => matcher_fits(content),
        SearchField::Mixed => matcher_fits(title) && matcher_fits(content),
    }
}

/// Every candidate of a search has fields short enough for the fuzzy matcher.
pub open spec fn all_fit(ns: Seq<Node>, rid: Option<NodeId>, field: SearchField) -> bool {
    forall|i: int| 0 <= i < ns.len() && candidate(ns, rid, #[trigger] ns[i]) ==> fuzzy_fits(
        field,
        ns[i].header.symbol@,
        fragment_text(ns[i]),
    )
}

/// Every candidate of a search is among the hits.
pub open spec fn every_candidate_hit(ns: Seq<Node>, rid: Option<NodeId>, v: Seq<SearchHit>) -> bool {
    forall|i: int| 0 <= i < ns.len() && candidate(ns, rid, #[trigger] ns[i]) ==> exists|t: int|
        0 <= t < v.len() && v[t].node_id == ns[i].header.id
}

/// Whether a text is short enough for the fuzzy matcher (see `matcher_fits`).
fn fits_matcher(text: &str) -> (b: bool)
    ensures
        b == matcher_fits(text@),
{
    let bytes = text.as_bytes();
    bytes.len() <= 4294967295
}

/// The score of an exact match: 1 when the query occurs in the field.
pub open spec fn exact_score(field: SearchField, query: Seq<char>, title: Seq<char>, content: Seq<char>) -> Option<u16> {
    let hit = match field {
        SearchField::Title => occurs_in(title, query),
        SearchField::Content => occurs_in(content, query),
        SearchField::Mixed => occurs_in(title, query) || occurs_in(content, query),
    };
    if hit {
        Some(1u16)
    } else {
        None
    }
}

/// The score of a fuzzy search from the scores of the title and of the content: a mixed
/// search adds them (saturating), counting a missing one as zero, and fails only when both
/// miss.
pub open spec fn combined_score(field: SearchField, title: Option<u16>, content: Option<u16>) -> Option<u16> {
    match field {
        SearchField::Title => title,
        SearchField::Content => content,
        SearchField::Mixed => match (title, content) {
            (None, None) => None,
            _ => {
                let a = match title { Some(x) => x as int, None => 0 };
                let b = match content { Some(x) => x as int, None => 0 };
                Some(if a + b > u16::MAX { u16::MAX } else { (a + b) as u16 })
            },
        },
    }
}

/// Combines fuzzy scores of title and content (see `combined_score`).
pub fn combine_scores(field: SearchField, title: Option<u16>, content: Option<u16>) -> (r: Option<u16>)
    ensures
        r == combined_score(field, title, content),
{
    match field {
        SearchField::Title => title,
        SearchField::Content => content,
        SearchField::Mixed => match (title, content) {
            (None, None) => None,
            _ => {
                let a = match title { Some(x) => x, None => 0 };
                let b = match content { Some(x) => x, None => 0 };
                Some(a.saturating_add(b))
            },
        },
    }
}

/// Scores a fragment exactly (see `exact_score`).
pub fn exact_match_score(field: SearchField, query: &str, title: &str, content: &str) -> (r: Option<u16>)
    ensures
        r == exact_score(field, query@, title@, content@),
{
    let hit = match field {
        SearchField::Title => contains_text(title, query),
        SearchField::Content => contains_text(content, query),
        SearchField::Mixed => contains_text(title, query) || contains_text(content, query),
    };
    if hit {
        Some(1)
    } else {
        None
    }
}

/// Position `a` comes before position `b`: a higher score first, then the earlier position.
pub open spec fn key_before(scores: Seq<u16>, a: usize, b: usize) -> bool {
    scores[a as int] > scores[b as int] || (scores[a as int] == scores[b as int] && a < b)
}

/// The positions of a list of scores ordered by decreasing score, ties in position order.
pub fn ranking_order(scores: &Vec<u16>) -> (out: Vec<usize>)
    ensures
        out@.len() == scores@.len(),
        forall|t: int| 0 <= t < out@.len() ==> #[trigger] out@[t] < scores@.len(),
        forall|q: usize| q < scores@.len() ==> #[trigger] out@.contains(q),
        forall|a: int, b: int| 0 <= a < b < out@.len() ==> key_before(scores@, #[trigger] out@[a], #[trigger] out@[b]),
{
    let n = scores.len();
    let mut out: Vec<usize> = Vec::new();
    let mut i: usize = 0;
    while i < n
        invariant
            n == scores@.len(),
            0 <= i <= n,
            out@.len() == i,
            forall|t: int| 0 <= t < out@.len() ==> #[trigger] out@[t] < i,
            forall|q: usize| q < i ==> #[trigger] out@.contains(q),
            forall|a: int, b: int| 0 <= a < b < out@.len() ==> key_before(scores@, #[trigger] out@[a], #[trigger] out@[b]),
        decreases n - i,
    {
        let mut pos: usize = 0;
        while pos < out.len() && scores[out[pos]] >= scores[i]
            invariant
                n == scores@.len(),
                i < n,
                0 <= pos <= out@.len(),
                forall|t: int| 0 <= t < out@.len() ==> #[trigger] out@[t] < i,
                forall|t: int| 0 <= t < pos ==> scores@[#[trigger] out@[t] as int] >= scores@[i as int],
            decreases out@.len() - pos,
        {
            pos = pos + 1;
        }
        let ghost old_out = out@;
        proof {
            assert forall|t: int| pos <= t < old_out.len() implies scores@[#[trigger] old_out[t] as int] < scores@[i as int] by {
                if t > pos {
                    assert(key_before(scores@, old_out[pos as int], old_out[t]));
                }
            }
            old_out.insert_ensures(pos as int, i);
        }
        out.insert(pos, i);
        proof {
            assert forall|t: int| 0 <= t < out@.len() implies #[trigger] out@[t] < i + 1 by {
                if t < pos {
                    assert(out@[t] == old_out[t]);
                } else if t > pos {
                    assert(out@[t] == old_out[t - 1]);
                }
            }
            assert forall|q: usize| q < i + 1 implies #[trigger] out@.contains(q) by {
                if q < i {
                    assert(old_out.contains(q));
                    let t = choose|t: int| 0 <= t < old_out.len() && old_out[t] == q;
                    if t < pos {
                        assert(out@[t] == q);
                    } else {
                        assert(out@[t + 1] == q);
                    }
                } else {
                    assert(out@[pos as int] == q);
                }
            }
            assert forall|a: int, b: int| 0 <= a < b < out@.len() implies key_before(scores@, #[trigger] out@[a], #[trigger] out@[b]) by {
                if b < pos {
                    assert(out@[a] == old_out[a] && out@[b] == old_out[b]);
                } else if b == pos {
                    assert(out@[a] == old_out[a]);
                } else if a < pos {
                    assert(out@[a] == old_out[a] && out@[b] == old_out[b - 1]);
                } else if a == pos {
                    assert(out@[b] == old_out[b - 1]);
                } else {
                    assert(out@[a] == old_out[a - 1] && out@[b] == old_out[b - 1]);
                }
            }
        }
        i = i + 1;
    }
    out
}

fn find_count(counts: &Vec<(NodeId, u64)>, id: NodeId) -> (r: Option<u64>)
    requires
        forall|a: int, b: int| 0 <= a < b < counts@.len() ==> (#[trigger] counts@[a]).0.id() < (#[trigger] counts@[b]).0.id(),
    ensures
        match r {
            Some(c) => exists|t: int| 0 <= t < counts@.len() && (#[trigger] counts@[t]).0 == id && counts@[t].1 == c,
            None => forall|t: int| 0 <= t < counts@.len() ==> (#[trigger] counts@[t]).0 != id,
        },
{
    let mut lo: usize = 0;
    let mut hi: usize = counts.len();
    while lo < hi
        invariant
            0 <= lo <= hi <= counts@.len(),
            forall|a: int, b: int| 0 <= a < b < counts@.len() ==> (#[trigger] counts@[a]).0.id() < (#[trigger] counts@[b]).0.id(),
            forall|t: int| 0 <= t < lo ==> (#[trigger] counts@[t]).0.id() < id.id(),
            forall|t: int| hi <= t < counts@.len() ==> (#[trigger] counts@[t]).0.id() > id.id(),
        decreases hi - lo,
    {
        let mid = lo + (hi - lo) / 2;
        let key = counts[mid].0.get();
        if key == id.get() {
            proof {
                crate::domain::node::lemma_node_id_ext(counts@[mid as int].0, id);
            }
            return Some(counts[mid].1);
        } else if key < id.get() {
            proof {
                assert forall|t: int| 0 <= t < mid + 1 implies (#[trigger] counts@[t]).0.id() < id.id() by {
                    if t < mid {
                        assert(counts@[t].0.id() < counts@[mid as int].0.id());
                    }
                }
            }
            lo = mid + 1;
        } else {
            proof {
                assert forall|t: int| mid <= t < counts@.len() implies (#[trigger] counts@[t]).0.id() > id.id() by {
                    if t > mid {
                        assert(counts@[mid as int].0.id() < counts@[t].0.id());
                    }
                }
            }
            hi = mid;
        }
    }
    proof {
        assert forall|t: int| 0 <= t < counts@.len() implies (#[trigger] counts@[t]).0 != id by {
            if counts@[t].0 == id {
                assert(counts@[t].0.id() == id.id());
            }
        }
    }
    None
}

/// The identity of the node that has symbol `s`.
pub open spec fn node_named(ns: Seq<Node>, s: Seq<char>) -> Node {
    ns[choose|i: int| 0 <= i < ns.len() && (#[trigger] ns[i]).header.symbol@ == s]
}

/// Some node has symbol `s`.
pub open spec fn names_node(ns: Seq<Node>, s: Seq<char>) -> bool {
    exists|i: int| 0 <= i < ns.len() && (#[trigger] ns[i]).header.symbol@ == s
}

/// A fragment that a search considers: any fragment, or under a root one reachable from it.
pub open spec fn candidate(ns: Seq<Node>, root: Option<NodeId>, n: Node) -> bool {
    &&& n.body is Fragment
    &&& match root {
        Some(r) => reaches(ns, r, n.header.id),
        None => true,
    }
}

/// `h` reports node `n`: its identity, symbol and occurrences under the root (saturated),
/// or 1 in a search of the whole catalog.
pub open spec fn reports(ns: Seq<Node>, root: Option<NodeId>, n: Node, h: SearchHit) -> bool {
    &&& h.node_id == n.header.id
    &&& h.symbol@ == n.header.symbol@
    &&& h.occurrence_count == match root {
        Some(r) => capped(occurrences(ns, r, n.header.id)) as u64,
        None => 1u64,
    }
}

/// The root a search is restricted to, once its symbol has been resolved.
pub open spec fn resolved_root(ns: Seq<Node>, root: Option<Seq<char>>) -> Option<NodeId> {
    match root {
        Some(s) => Some(node_named(ns, s).header.id),
        None => None,
    }
}

/// `h` reports a candidate fragment, with the exact score when the search is exact.
pub open spec fn genuine_hit(
    ns: Seq<Node>,
    rid: Option<NodeId>,
    algorithm: MatchAlgorithm,
    field: SearchField,
    query: Seq<char>,
    h: SearchHit,
) -> bool {
    exists|i: int|
        0 <= i < ns.len() && candidate(ns, rid, ns[i]) && #[trigger] reports(ns, rid, ns[i], h) && (algorithm
            == MatchAlgorithm::Exact ==> Some(h.score) == exact_score(field, query, ns[i].header.symbol@, fragment_text(ns[i])))
}

/// `v` is the result of a search: genuine hits, every exact match among them, in ranking
/// order.
pub open spec fn found_hits(
    ns: Seq<Node>,
    rid: Option<NodeId>,
    algorithm: MatchAlgorithm,
    field: SearchField,
    query: Seq<char>,
    v: Seq<SearchHit>,
) -> bool {
    &&& forall|t: int| 0 <= t < v.len() ==> #[trigger] genuine_hit(ns, rid, algorithm, field, query, v[t])
    &&& algorithm == MatchAlgorithm::Exact ==> forall|i: int|
        0 <= i < ns.len() && candidate(ns, rid, #[trigger] ns[i]) && exact_score(field, query, ns[i].header.symbol@, fragment_text(ns[i])) is Some
            ==> exists|t: int| 0 <= t < v.len() && v[t].node_id == ns[i].header.id
    &&& forall|a: int, b: int| 0 <= a < b < v.len() ==> ranks_before(#[trigger] v[a], #[trigger] v[b])
}

/// A search root, if any, names a prompt.
pub open spec fn root_ok(ns: Seq<Node>, root: Option<Seq<char>>) -> bool {
    match root {
        Some(s) => names_node(ns, s) && node_named(ns, s).header.kind == NodeKind::Prompt,
        None => true,
    }
}

/// The text of a fragment's payload.
pub open spec fn fragment_text(n: Node) -> Seq<char> {
    match n.body {
        NodeBody::Fragment(t) => t@,
        NodeBody::Prompt(_) => Seq::empty(),
    }
}

/// The view of an optional symbol.
pub open spec fn root_view(root: Option<&Symbol>) -> Option<Seq<char>> {
    match root {
        Some(s) => Some(s@),
        None => None,
    }
}

/// Searches the fragments of a catalog, or those reachable from a prompt.
///
/// Each candidate fragment is scored on the chosen field: an exact search scores 1 when the
/// query occurs in it (see `exact_score`); a fuzzy search combines the matcher's scores of
/// title and content (see `combined_score`). Hits come in ranking order: higher score, then
/// symbol, then identity. A fuzzy search refuses a title or text of more than `u32::MAX`
/// UTF-8 bytes, which the matcher cannot take (see `fuzzy_fits`); an empty fuzzy query hits
/// every candidate.
#[verifier::spinoff_prover]
#[verifier::rlimit(40)]
pub fn search(
    snapshot: &CatalogSnapshot,
    query: &str,
    field: SearchField,
    root: Option<&Symbol>,
    algorithm: MatchAlgorithm,
) -> (r: Result<Vec<SearchHit>, Diagnostic>)
    ensures
        root_view(root) is Some && !names_node(snapshot.nodes(), root_view(root)->0) ==> (r matches Err(d)
            && unknown_symbol_error(d, root_view(root)->0)),
        root_view(root) is Some && names_node(snapshot.nodes(), root_view(root)->0) && node_named(
            snapshot.nodes(),
            root_view(root)->0,
        ).header.kind != NodeKind::Prompt ==> (r matches Err(d) && plain_error(
            d,
            "E_KIND"@,
            DiagnosticCategory::Domain,
            "`"@ + root_view(root)->0 + "` is not a prompt"@,
        )),
        root_ok(snapshot.nodes(), root_view(root)) && algorithm == MatchAlgorithm::Exact ==> r is Ok,
        root_ok(snapshot.nodes(), root_view(root)) && algorithm == MatchAlgorithm::Fuzzy ==> (r is Ok <==> all_fit(
            snapshot.nodes(),
            resolved_root(snapshot.nodes(), root_view(root)),
            field,
        )),
        r is Ok && algorithm == MatchAlgorithm::Fuzzy && query@.len() == 0 ==> every_candidate_hit(
            snapshot.nodes(),
            resolved_root(snapshot.nodes(), root_view(root)),
            r->Ok_0@,
        ),
        r is Err && root_ok(snapshot.nodes(), root_view(root)) ==> plain_error(
            r->Err_0,
            "E_SEARCH_LIMIT"@,
            DiagnosticCategory::Domain,
            "a title or text is too long for fuzzy search"@,
        ),
        r matches Ok(v) ==> found_hits(snapshot.nodes(), resolved_root(snapshot.nodes(), root_view(root)), algorithm, field, query@, v@),
{
    let ghost ns = snapshot.nodes();
    let root_id: Option<NodeId> = match root {
        None => None,
        Some(symbol) => match snapshot.get_by_symbol(symbol) {
            None => {
                return Err(unknown_symbol(symbol));
            },
            Some(node) => {
                proof {
                    let i = choose|i: int| 0 <= i < ns.len() && ns[i] == *node;
                    let w = choose|w: int| 0 <= w < ns.len() && (#[trigger] ns[w]).header.symbol@ == symbol@;
                    assert(w == i);
                }
                match node.header.kind {
                    NodeKind::Prompt => {},
                    NodeKind::Fragment => {
                        let mut message = String::new();
                        message.push_str("`");
                        message.push_str(symbol.as_str());
                        message.push_str("` is not a prompt");
                        return Err(Diagnostic::error("E_KIND", DiagnosticCategory::Domain, message.as_str()));
                    },
                }
                Some(node.header.id)
            },
        },
    };
    assert(root_id == resolved_root(ns, root_view(root)));
    assert(root_ok(ns, root_view(root)));
    let counts: Vec<(NodeId, u64)> = match root_id {
        Some(id) => match snapshot.occurrence_counts_saturating(id) {
            Ok(c) => c,
            Err(e) => {
                return Err(domain_diagnostic(e));
            },
        },
        None => Vec::new(),
    };
    let mut matcher = new_fuzzy_matcher();
    let nodes = snapshot.iter_by_symbol();
    let mut hits: Vec<SearchHit> = Vec::new();
    let ghost mut from: Seq<int> = Seq::empty();
    let mut p: usize = 0;
    while p < nodes.len()
        invariant
            ns == snapshot.nodes(),
            root_id == resolved_root(ns, root_view(root)),
            root_ok(ns, root_view(root)),
            root_id matches Some(rid) ==> has_id(ns, rid) && counted(ns, rid, counts@, true),
            0 <= p <= nodes@.len(),
            nodes@.len() == ns.len(),
            forall|q: int| 0 <= q < nodes@.len() ==> #[trigger] holds_node(ns, *nodes@[q]),
            forall|q1: int, q2: int| 0 <= q1 < q2 < nodes@.len() ==> text_lt((#[trigger] nodes@[q1]).header.symbol@, (#[trigger] nodes@[q2]).header.symbol@),
            from.len() == hits@.len(),
            forall|t: int| 0 <= t < hits@.len() ==> 0 <= #[trigger] from[t] < p,
            forall|a: int, b: int| 0 <= a < b < hits@.len() ==> #[trigger] from[a] < #[trigger] from[b],
            forall|t: int| 0 <= t < hits@.len() ==> candidate(ns, root_id, *nodes@[#[trigger] from[t]])
                && reports(ns, root_id, *nodes@[from[t]], hits@[t])
                && (algorithm == MatchAlgorithm::Exact ==> Some(hits@[t].score) == exact_score(field, query@, nodes@[from[t]].header.symbol@, fragment_text(*nodes@[from[t]]))),
            algorithm == MatchAlgorithm::Exact ==> forall|q: int| 0 <= q < p && candidate(ns, root_id, *nodes@[q])
                && exact_score(field, query@, nodes@[q].header.symbol@, fragment_text(*nodes@[q])) is Some
                ==> exists|t: int| 0 <= t < hits@.len() && #[trigger] from[t] == q,
            algorithm == MatchAlgorithm::Fuzzy ==> forall|q: int| 0 <= q < p && candidate(ns, root_id, #[trigger] *nodes@[q])
                ==> fuzzy_fits(field, nodes@[q].header.symbol@, fragment_text(*nodes@[q])),
            algorithm == MatchAlgorithm::Fuzzy && query@.len() == 0 ==> forall|q: int| 0 <= q < p && candidate(ns, root_id, *nodes@[q])
                ==> exists|t: int| 0 <= t < hits@.len() && #[trigger] from[t] == q,
        decreases nodes@.len() - p,
    {
        let node = nodes[p];
        let text = match &node.body {
            NodeBody::Fragment(text) => text,
            NodeBody::Prompt(_) => {
                p = p + 1;
                continue;
            },
        };
        proof {
            assert(holds_node(ns, *nodes@[p as int]));
        }
        let occurrence_count: u64 = match root_id {
            Some(_) => match find_count(&counts, node.header.id) {
                Some(c) => c,
                None => {
                    proof {
                        let rid = root_id->0;
                        if reaches(ns, rid, node.header.id) {
                            let t = choose|t: int| 0 <= t < counts@.len() && (#[trigger] counts@[t]).0 == node.header.id;
                            assert(counts@[t].0 != node.header.id);
                        }
                        assert(!candidate(ns, root_id, *nodes@[p as int]));
                        assert forall|q: int| 0 <= q < p + 1 && candidate(ns, root_id, *nodes@[q])
                            && exact_score(field, query@, nodes@[q].header.symbol@, fragment_text(*nodes@[q])) is Some
                            && algorithm == MatchAlgorithm::Exact
                            implies exists|t: int| 0 <= t < hits@.len() && #[trigger] from[t] == q by {
                            if q < p {
                            }
                        }
                    }
                    p = p + 1;
                    continue;
                },
            },
            None => 1,
        };
        proof {
            if root_id is Some {
                let rid = root_id->0;
                let t = choose|t: int| 0 <= t < counts@.len() && (#[trigger] counts@[t]).0 == node.header.id && counts@[t].1 == occurrence_count;
                assert(reaches(ns, rid, counts@[t].0));
            }
        }
        let title = node.header.symbol.as_str();
        let content = text.as_str();
        let score = match algorithm {
            MatchAlgorithm::Exact => exact_match_score(field, query, title, content),
            MatchAlgorithm::Fuzzy => {
                let fits = match field {
                    SearchField::Title => fits_matcher(title),
                    SearchField::Content => fits_matcher(content),
                    SearchField::Mixed => fits_matcher(title) && fits_matcher(content),
                };
                if !fits {
                    proof {
                        assert(candidate(ns, root_id, *nodes@[p as int]));
                        assert(holds_node(ns, *nodes@[p as int]));
                        let i = choose|i: int| 0 <= i < ns.len() && ns[i] == *nodes@[p as int];
                        assert(candidate(ns, root_id, ns[i]));
                        assert(!fuzzy_fits(field, ns[i].header.symbol@, fragment_text(ns[i])));
                    }
                    return Err(Diagnostic::error(
                        "E_SEARCH_LIMIT",
                        DiagnosticCategory::Domain,
                        "a title or text is too long for fuzzy search",
                    ));
                }
                let title_score = match field {
                    SearchField::Content => None,
                    _ => fuzzy_match(&mut matcher, title, query),
                };
                let content_score = match field {
                    SearchField::Title => None,
                    _ => fuzzy_match(&mut matcher, content, query),
                };
                combine_scores(field, title_score, content_score)
            },
        };
        assert(algorithm == MatchAlgorithm::Fuzzy && query@.len() == 0 ==> score is Some);
        let ghost old_from = from;
        let ghost old_len = hits@.len();
        match score {
            Some(value) => {
                hits.push(SearchHit {
                    node_id: node.header.id,
                    symbol: node.header.symbol.clone(),
                    score: value,
                    occurrence_count,
                });
                proof {
                    from = from.push(p as int);
                    assert(from[old_len as int] == p);
                }
            },
            None => {},
        }
        proof {
            assert forall|q: int| 0 <= q < p + 1 && candidate(ns, root_id, *nodes@[q])
                && algorithm == MatchAlgorithm::Fuzzy && query@.len() == 0
                implies exists|t: int| 0 <= t < hits@.len() && #[trigger] from[t] == q by {
                if q < p {
                    let t = choose|t: int| 0 <= t < old_len && #[trigger] old_from[t] == q;
                    assert(from[t] == q);
                } else {
                    assert(from[old_len as int] == q);
                }
            }
            assert forall|q: int| 0 <= q < p + 1 && candidate(ns, root_id, *nodes@[q])
                && exact_score(field, query@, nodes@[q].header.symbol@, fragment_text(*nodes@[q])) is Some
                && algorithm == MatchAlgorithm::Exact
                implies exists|t: int| 0 <= t < hits@.len() && #[trigger] from[t] == q by {
                if q < p {
                    let t = choose|t: int| 0 <= t < old_len && #[trigger] old_from[t] == q;
                    assert(from[t] == q);
                } else {
                    assert(from[old_len as int] == q);
                }
            }
        }
        p = p + 1;
    }
    let mut scores: Vec<u16> = Vec::new();
    let mut k: usize = 0;
    while k < hits.len()
        invariant
            0 <= k <= hits@.len(),
            scores@.len() == k,
            forall|t: int| 0 <= t < k ==> #[trigger] scores@[t] == hits@[t].score,
        decreases hits@.len() - k,
    {
        scores.push(hits[k].score);
        k = k + 1;
    }
    let order = ranking_order(&scores);
    let mut ranked: Vec<SearchHit> = Vec::new();
    let mut k: usize = 0;
    while k < order.len()
        invariant
            0 <= k <= order@.len(),
            order@.len() == hits@.len(),
            scores@.len() == hits@.len(),
            forall|t: int| 0 <= t < hits@.len() ==> #[trigger] scores@[t] == hits@[t].score,
            forall|t: int| 0 <= t < order@.len() ==> #[trigger] order@[t] < hits@.len(),
            ranked@.len() == k,
            forall|t: int| 0 <= t < k ==> (#[trigger] ranked@[t]).node_id == hits@[order@[t] as int].node_id
                && ranked@[t].symbol@ == hits@[order@[t] as int].symbol@
                && ranked@[t].score == hits@[order@[t] as int].score
                && ranked@[t].occurrence_count == hits@[order@[t] as int].occurrence_count,
        decreases order@.len() - k,
    {
        let h = &hits[order[k]];
        ranked.push(SearchHit {
            node_id: h.node_id,
            symbol: h.symbol.clone(),
            score: h.score,
            occurrence_count: h.occurrence_count,
        });
        k = k + 1;
    }
    proof {
        let rid = root_id;
        assert forall|t: int| 0 <= t < ranked@.len() implies #[trigger] genuine_hit(ns, rid, algorithm, field, query@, ranked@[t]) by {
            let u = order@[t] as int;
            let q = from[u];
            assert(holds_node(ns, *nodes@[q]));
            let i = choose|i: int| 0 <= i < ns.len() && ns[i] == *nodes@[q];
            assert(reports(ns, rid, ns[i], hits@[u]));
            assert(candidate(ns, rid, ns[i]) && reports(ns, rid, ns[i], ranked@[t]));
        }
        assert forall|a: int, b: int| 0 <= a < b < ranked@.len() implies ranks_before(#[trigger] ranked@[a], #[trigger] ranked@[b]) by {
            let ua = order@[a];
            let ub = order@[b];
            assert(key_before(scores@, ua, ub));
            if scores@[ua as int] == scores@[ub as int] {
                assert(from[ua as int] < from[ub as int]);
                assert(text_lt(nodes@[from[ua as int]].header.symbol@, nodes@[from[ub as int]].header.symbol@));
            }
        }
        if algorithm == MatchAlgorithm::Fuzzy {
            assert forall|i: int| 0 <= i < ns.len() && candidate(ns, rid, #[trigger] ns[i]) implies fuzzy_fits(
                field,
                ns[i].header.symbol@,
                fragment_text(ns[i]),
            ) by {
                assert(lists_node(nodes@, ns[i]));
                let q = choose|q: int| 0 <= q < nodes@.len() && *nodes@[q] == ns[i];
                assert(candidate(ns, rid, *nodes@[q]));
            }
            if query@.len() == 0 {
                assert forall|i: int| 0 <= i < ns.len() && candidate(ns, rid, #[trigger] ns[i])
                    implies exists|t: int| 0 <= t < ranked@.len() && ranked@[t].node_id == ns[i].header.id by {
                    assert(lists_node(nodes@, ns[i]));
                    let q = choose|q: int| 0 <= q < nodes@.len() && *nodes@[q] == ns[i];
                    assert(candidate(ns, rid, *nodes@[q]));
                    let u = choose|u: int| 0 <= u < hits@.len() && #[trigger] from[u] == q;
                    assert(order@.contains(u as usize));
                    let t = choose|t: int| 0 <= t < order@.len() && order@[t] == u as usize;
                    assert(ranked@[t].node_id == hits@[u].node_id);
                }
            }
        }
        if algorithm == MatchAlgorithm::Exact {
            assert forall|i: int| 0 <= i < ns.len() && candidate(ns, rid, #[trigger] ns[i])
                && exact_score(field, query@, ns[i].header.symbol@, fragment_text(ns[i])) is Some
                implies exists|t: int| 0 <= t < ranked@.len() && ranked@[t].node_id == ns[i].header.id by {
                assert(lists_node(nodes@, ns[i]));
                let q = choose|q: int| 0 <= q < nodes@.len() && *nodes@[q] == ns[i];
                let u = choose|u: int| 0 <= u < hits@.len() && #[trigger] from[u] == q;
                assert(order@.contains(u as usize));
                let t = choose|t: int| 0 <= t < order@.len() && order@[t] == u as usize;
                assert(ranked@[t].node_id == hits@[u].node_id);
            }
        }
    }
    proof {
        assert(root_id == resolved_root(snapshot.nodes(), root_view(root)));
        assert(found_hits(ns, root_id, algorithm, field, query@, ranked@));
    }
    Ok(ranked)
}

} // verus!
