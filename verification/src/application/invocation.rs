//! What an invocation may do, and what it expects of the nodes it touches.

use vstd::prelude::*;

use super::command::Effects;
use crate::domain::{NodeId, Revision, Symbol};

verus! {

/// The effects an invocation allows.
#[derive(Clone, Copy, Debug, Eq, PartialEq)]
pub struct InvocationPolicy {
    /// Allowed effects.
    pub allowed_effects: Effects,
}

impl InvocationPolicy {
    /// A script may read and write the store, and nothing else.
    pub fn script() -> (p: Self)
        ensures
            p.allowed_effects == (Effects { read_store: true, write_store: true, ..Effects::spec_empty() }),
    {
        InvocationPolicy {
            allowed_effects: Effects {
                read_store: true,
                write_store: true,
                read_file: false,
                read_stdin: false,
                interactive: false,
            },
        }
    }

    /// An interactive session may do everything.
    pub fn interactive() -> (p: Self)
        ensures
            p.allowed_effects == (Effects { read_store: true, write_store: true, read_file: true, read_stdin: true, interactive: true }),
    {
        InvocationPolicy { allowed_effects: Effects::all() }
    }
}

/// The identity and revision a node must still have for a batch to run.
#[derive(Clone, Debug, Eq, PartialEq)]
pub struct NodePrecondition {
    symbol: Symbol,
    node_id: NodeId,
    revision: Revision,
}

impl NodePrecondition {
    /// The expected symbol.
    pub closed spec fn spec_symbol(&self) -> Seq<char> {
        self.symbol@
    }

    /// The expected identity.
    pub closed spec fn spec_node_id(&self) -> NodeId {
        self.node_id
    }

    /// The expected revision.
    pub closed spec fn spec_revision(&self) -> Revision {
        self.revision
    }

    /// Records what a node must still be.
    pub fn new(symbol: Symbol, node_id: NodeId, revision: Revision) -> (p: Self)
        ensures
            p.spec_symbol() == symbol@,
            p.spec_node_id() == node_id,
            p.spec_revision() == revision,
    {
        NodePrecondition { symbol, node_id, revision }
    }

    /// The expected symbol.
    pub fn symbol(&self) -> (s: &Symbol)
        ensures
            s@ == self.spec_symbol(),
    {
        &self.symbol
    }

    /// The expected identity.
    pub fn node_id(&self) -> (id: NodeId)
        ensures
            id == self.spec_node_id(),
    {
        self.node_id
    }

    /// The expected revision.
    pub fn revision(&self) -> (r: Revision)
        ensures
            r == self.spec_revision(),
    {
        self.revision
    }
}

} // verus!
