//! Host-independent values returned by the interpreter.

use vstd::prelude::*;

use crate::domain::{Metadata, NodeId, NodeKind, Revision, Symbol};
use crate::domain::search::SearchHit;

verus! {

/// Aggregate bytes of canonical XML that one evaluation may keep in memory.
pub const XML_MEMORY_LIMIT: usize = 16777216;

/// Stable projection of a node for hosts.
#[derive(Clone, Debug, PartialEq)]
pub struct NodeView {
    /// Stable node id.
    pub id: NodeId,
    /// Current symbol.
    pub symbol: Symbol,
    /// Node kind.
    pub kind: NodeKind,
    /// Current revision.
    pub revision: Revision,
    /// Child symbols of a prompt, in order.
    pub children: Vec<Symbol>,
    /// UTF-8 byte length of a fragment's text.
    pub byte_size: Option<usize>,
    /// User metadata.
    pub metadata: Metadata,
}

/// A typed value produced by one statement.
#[derive(Debug)]
pub enum Value {
    /// No value.
    Unit,
    /// Plain text.
    Text(String),
    /// Canonical XML bytes.
    Xml(Vec<u8>),
    /// One node.
    Node(NodeView),
    /// Several nodes.
    Nodes(Vec<NodeView>),
    /// Ranked search hits.
    SearchResults(Vec<SearchHit>),
    /// Metadata after a change.
    Metadata(Metadata),
}

/// The XML bytes that may still stay in memory during one evaluation.
pub struct XmlMemoryBudget {
    remaining: usize,
}

impl XmlMemoryBudget {
    /// Bytes still allowed.
    pub closed spec fn spec_remaining(&self) -> usize {
        self.remaining
    }

    /// The full budget.
    pub fn new() -> (b: Self)
        ensures
            b.spec_remaining() == XML_MEMORY_LIMIT,
    {
        XmlMemoryBudget { remaining: XML_MEMORY_LIMIT }
    }

    /// Bytes still allowed; an XML value larger than this goes to a temporary file.
    pub fn remaining(&self) -> (n: usize)
        ensures
            n == self.spec_remaining(),
    {
        self.remaining
    }

    /// Accounts for one finished value that keeps `resident` bytes in memory.
    pub fn account(&mut self, resident: usize)
        ensures
            final(self).spec_remaining() == if resident <= old(self).spec_remaining() {
                (old(self).spec_remaining() - resident) as usize
            } else {
                0usize
            },
    {
        self.remaining = self.remaining.saturating_sub(resident);
    }
}

} // verus!
