//! Search queries: what to match, where, and how.

use vstd::prelude::*;

use super::node::{NodeId, Symbol};
use crate::order::{text_lt, text_order, Precedence};

verus! {

/// Where a search looks.
#[derive(Debug, Clone, Copy, PartialEq, Eq)]
pub enum SearchScope {
    /// The whole catalog.
    Global,
    /// The nodes reachable from a root.
    ReachableFrom(NodeId),
}

/// Which text of a node a search matches.
#[derive(Debug, Clone, Copy, PartialEq, Eq)]
pub enum SearchField {
    /// Symbols only.
    Title,
    /// Fragment text only.
    Content,
    /// Symbols and fragment text.
    Mixed,
}

/// How a search matches.
#[derive(Debug, Clone, Copy, PartialEq, Eq)]
pub enum SearchMatcher {
    /// Fuzzy subsequence matching.
    Fuzzy,
    /// Case-sensitive substring matching.
    Exact,
    /// Reserved full-text matching.
    FullText,
    /// Reserved semantic matching.
    Semantic,
}

/// A complete search request.
#[derive(Debug, Clone, PartialEq, Eq)]
pub struct SearchQuery {
    /// Text to look for.
    pub text: String,
    /// Where to look.
    pub scope: SearchScope,
    /// Which text to match.
    pub field: SearchField,
    /// How to match.
    pub matcher: SearchMatcher,
}

impl SearchQuery {
    /// A fuzzy search of symbols and content over the whole catalog.
    pub fn global(text: &str) -> (q: Self)
        ensures
            q.text@ == text@,
            q.scope == SearchScope::Global,
            q.field == SearchField::Mixed,
            q.matcher == SearchMatcher::Fuzzy,
    {
        SearchQuery {
            text: text.to_owned(),
            scope: SearchScope::Global,
            field: SearchField::Mixed,
            matcher: SearchMatcher::Fuzzy,
        }
    }
}

/// A search hit with what a deterministic ranking needs.
#[derive(Debug, Clone, PartialEq)]
pub struct SearchHit {
    /// Matched node.
    pub node_id: NodeId,
    /// Matched symbol.
    pub symbol: Symbol,
    /// Relevance; higher is better.
    pub score: u16,
    /// Occurrences of the node in the expanded root, or 1 in a global search.
    pub occurrence_count: u64,
}

/// `a` ranks strictly before `b`: higher score first, then symbol, then identity.
pub open spec fn ranks_before(a: SearchHit, b: SearchHit) -> bool {
    ||| a.score > b.score
    ||| a.score == b.score && text_lt(a.symbol@, b.symbol@)
    ||| a.score == b.score && a.symbol@ == b.symbol@ && a.node_id.id() < b.node_id.id()
}

impl SearchHit {
    /// Compares two hits in ranking order: higher score first, then symbol, then identity.
    pub fn deterministic_cmp(&self, other: &Self) -> (o: core::cmp::Ordering)
        ensures
            (o == core::cmp::Ordering::Less) == ranks_before(*self, *other),
            (o == core::cmp::Ordering::Greater) == ranks_before(*other, *self),
    {
        proof {
            crate::order::lemma_text_lt_irreflexive(self.symbol@);
            if text_lt(self.symbol@, other.symbol@) {
                crate::order::lemma_text_lt_asymmetric(self.symbol@, other.symbol@);
            }
        }
        if self.score > other.score {
            core::cmp::Ordering::Less
        } else if self.score < other.score {
            core::cmp::Ordering::Greater
        } else {
            match text_order(self.symbol.as_str(), other.symbol.as_str()) {
                Precedence::Before => core::cmp::Ordering::Less,
                Precedence::After => core::cmp::Ordering::Greater,
                Precedence::Same => {
                    if self.node_id.get() < other.node_id.get() {
                        core::cmp::Ordering::Less
                    } else if self.node_id.get() > other.node_id.get() {
                        core::cmp::Ordering::Greater
                    } else {
                        core::cmp::Ordering::Equal
                    }
                },
            }
        }
    }
}

} // verus!
