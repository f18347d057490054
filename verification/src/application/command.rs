//! Compiled operations and the effects they need.

use vstd::prelude::*;

use crate::domain::{Revision, SearchField, Symbol, XmlText};

verus! {

/// A set of effects a program may have.
#[derive(Clone, Copy, Debug, Default, PartialEq, Eq)]
pub struct Effects {
    /// Reads the store.
    pub read_store: bool,
    /// Writes the store.
    pub write_store: bool,
    /// Reads a file.
    pub read_file: bool,
    /// Reads standard input.
    pub read_stdin: bool,
    /// Needs an interactive editor.
    pub interactive: bool,
}

impl Effects {
    /// No effect.
    pub fn empty() -> (e: Self)
        ensures
            e == (Effects { read_store: false, write_store: false, read_file: false, read_stdin: false, interactive: false }),
    {
        Effects { read_store: false, write_store: false, read_file: false, read_stdin: false, interactive: false }
    }

    /// Every effect.
    pub fn all() -> (e: Self)
        ensures
            e == (Effects { read_store: true, write_store: true, read_file: true, read_stdin: true, interactive: true }),
    {
        Effects { read_store: true, write_store: true, read_file: true, read_stdin: true, interactive: true }
    }

    /// Reading the store alone.
    pub fn read_store_only() -> (e: Self)
        ensures
            e == (Effects { read_store: true, ..Effects::spec_empty() }),
    {
        Effects { read_store: true, write_store: false, read_file: false, read_stdin: false, interactive: false }
    }

    /// The empty set, in specifications.
    pub open spec fn spec_empty() -> Self {
        Effects { read_store: false, write_store: false, read_file: false, read_stdin: false, interactive: false }
    }

    /// The union of two sets, in specifications.
    pub open spec fn spec_union(self, other: Self) -> Self {
        Effects {
            read_store: self.read_store || other.read_store,
            write_store: self.write_store || other.write_store,
            read_file: self.read_file || other.read_file,
            read_stdin: self.read_stdin || other.read_stdin,
            interactive: self.interactive || other.interactive,
        }
    }

    /// Whether every effect of `other` is in this set, in specifications.
    pub open spec fn spec_contains(self, other: Self) -> bool {
        &&& other.read_store ==> self.read_store
        &&& other.write_store ==> self.write_store
        &&& other.read_file ==> self.read_file
        &&& other.read_stdin ==> self.read_stdin
        &&& other.interactive ==> self.interactive
    }

    /// The union of two sets.
    pub fn union(self, other: Self) -> (e: Self)
        ensures
            e == self.spec_union(other),
    {
        Effects {
            read_store: self.read_store || other.read_store,
            write_store: self.write_store || other.write_store,
            read_file: self.read_file || other.read_file,
            read_stdin: self.read_stdin || other.read_stdin,
            interactive: self.interactive || other.interactive,
        }
    }

    /// Whether every effect of `other` is in this set.
    pub fn contains(self, other: Self) -> (b: bool)
        ensures
            b == self.spec_contains(other),
    {
        (!other.read_store || self.read_store) && (!other.write_store || self.write_store) && (
        !other.read_file || self.read_file) && (!other.read_stdin || self.read_stdin) && (
        !other.interactive || self.interactive)
    }

    /// The bit pattern: read store 1, write store 2, read file 4, read stdin 8, interactive 16.
    pub fn bits(self) -> (b: u8)
        ensures
            b == (if self.read_store { 1u8 } else { 0u8 }) + (if self.write_store { 2u8 } else { 0u8 }) + (
            if self.read_file { 4u8 } else { 0u8 }) + (if self.read_stdin { 8u8 } else { 0u8 }) + (
            if self.interactive { 16u8 } else { 0u8 }),
    {
        let mut b: u8 = 0;
        if self.read_store {
            b = b + 1;
        }
        if self.write_store {
            b = b + 2;
        }
        if self.read_file {
            b = b + 4;
        }
        if self.read_stdin {
            b = b + 8;
        }
        if self.interactive {
            b = b + 16;
        }
        b
    }
}

/// Which nodes a listing shows.
#[derive(Clone, Copy, Debug, Default, PartialEq, Eq)]
pub enum NodeFilter {
    /// Every node.
    #[default]
    All,
    /// Fragments only.
    Fragments,
    /// Prompts only.
    Prompts,
}

/// A compiled operation.
#[derive(Clone, Debug, PartialEq)]
pub enum Op {
    /// Create or change a fragment; without text the text comes from an editor.
    UpsertFragment {
        /// Fragment symbol.
        target: Symbol,
        /// New text, if given inline.
        text: Option<XmlText>,
        /// Revision the change expects.
        expected_revision: Option<Revision>,
    },
    /// Create a prompt or replace its children.
    ReplacePrompt {
        /// Prompt symbol.
        target: Symbol,
        /// Children in order.
        children: Vec<Symbol>,
    },
    /// Rename a node.
    Rename {
        /// Current symbol.
        target: Symbol,
        /// New symbol.
        new_symbol: Symbol,
    },
    /// Delete a node.
    Delete {
        /// Symbol to delete.
        target: Symbol,
    },
    /// Replace a description.
    SetDescription {
        /// Node symbol.
        target: Symbol,
        /// New description; empty clears it.
        description: Option<String>,
    },
    /// Replace the tags.
    SetTags {
        /// Node symbol.
        target: Symbol,
        /// New tags.
        tags: Vec<String>,
    },
    /// List nodes.
    List {
        /// Which nodes.
        filter: NodeFilter,
    },
    /// Show a node.
    Inspect {
        /// Node symbol.
        target: Symbol,
    },
    /// Search the catalog.
    Search {
        /// Query text.
        query: String,
        /// Field to match, if given.
        field: Option<SearchField>,
        /// Root to search under, if given.
        root: Option<Symbol>,
    },
    /// Render a node's canonical XML.
    RenderXml {
        /// Node symbol.
        root: Symbol,
    },
}

impl Op {
    /// The effects of an operation, in specifications.
    pub open spec fn spec_effects(&self) -> Effects {
        match self {
            Op::UpsertFragment { .. } => Effects {
                read_store: true,
                write_store: true,
                interactive: true,
                ..Effects::spec_empty()
            },
            Op::ReplacePrompt { .. } | Op::Rename { .. } | Op::Delete { .. } | Op::SetDescription { .. }
            | Op::SetTags { .. } => Effects { read_store: true, write_store: true, ..Effects::spec_empty() },
            Op::List { .. } | Op::Inspect { .. } | Op::Search { .. } | Op::RenderXml { .. } => Effects {
                read_store: true,
                ..Effects::spec_empty()
            },
        }
    }

    /// The effects of an operation: every one reads the store, the mutating ones write it,
    /// and a fragment change may need an interactive editor.
    pub fn effects(&self) -> (e: Effects)
        ensures
            e == self.spec_effects(),
    {
        match self {
            Op::UpsertFragment { .. } => Effects {
                read_store: true,
                write_store: true,
                read_file: false,
                read_stdin: false,
                interactive: true,
            },
            Op::ReplacePrompt { .. } | Op::Rename { .. } | Op::Delete { .. } | Op::SetDescription { .. }
            | Op::SetTags { .. } => Effects {
                read_store: true,
                write_store: true,
                read_file: false,
                read_stdin: false,
                interactive: false,
            },
            Op::List { .. } | Op::Inspect { .. } | Op::Search { .. } | Op::RenderXml { .. } => {
                Effects::read_store_only()
            },
        }
    }
}

/// The union of the effects of a list of operations.
pub open spec fn effects_of(ops: Seq<Op>) -> Effects
    decreases ops.len(),
{
    if ops.len() == 0 {
        Effects::spec_empty()
    } else {
        effects_of(ops.drop_last()).spec_union(ops.last().spec_effects())
    }
}

/// A compiled program with the union of its effects.
#[derive(Clone, Debug, Default, PartialEq)]
pub struct CheckedProgram {
    /// Operations in order.
    pub ops: Vec<Op>,
    /// Union of their effects.
    pub effects: Effects,
}

impl CheckedProgram {
    /// Pairs operations with the union of their effects.
    pub fn new(ops: Vec<Op>) -> (p: Self)
        ensures
            p.ops@ == ops@,
            p.effects == effects_of(ops@),
    {
        let mut effects = Effects::empty();
        let mut i: usize = 0;
        while i < ops.len()
            invariant
                0 <= i <= ops@.len(),
                effects == effects_of(ops@.take(i as int)),
            decreases ops@.len() - i,
        {
            proof {
                assert(ops@.take(i + 1).drop_last() =~= ops@.take(i as int));
            }
            effects = effects.union(ops[i].effects());
            i = i + 1;
        }
        proof {
            assert(ops@.take(ops@.len() as int) =~= ops@);
        }
        CheckedProgram { ops, effects }
    }

    /// Whether the program writes the store.
    pub fn is_mutating(&self) -> (b: bool)
        ensures
            b == self.effects.write_store,
    {
        self.effects.write_store
    }
}

/// A program writes the store exactly when one of its operations does.
pub proof fn lemma_effects_write(ops: Seq<Op>)
    ensures
        effects_of(ops).write_store <==> exists|k: int| 0 <= k < ops.len() && (#[trigger] ops[k]).spec_effects().write_store,
    decreases ops.len(),
{
    if ops.len() > 0 {
        lemma_effects_write(ops.drop_last());
        if effects_of(ops.drop_last()).write_store {
            let k = choose|k: int| 0 <= k < ops.drop_last().len() && (#[trigger] ops.drop_last()[k]).spec_effects().write_store;
            assert(ops[k] == ops.drop_last()[k]);
        }
        if exists|k: int| 0 <= k < ops.len() && (#[trigger] ops[k]).spec_effects().write_store {
            let k = choose|k: int| 0 <= k < ops.len() && (#[trigger] ops[k]).spec_effects().write_store;
            if k < ops.len() - 1 {
                assert(ops.drop_last()[k] == ops[k]);
            }
        }
    }
}

} // verus!
