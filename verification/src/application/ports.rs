//! Persistence ports owned by the application layer: what a store offers inside one write
//! transaction.

use vstd::prelude::*;

use crate::diagnostic::Diagnostic;
use crate::domain::metadata::tag_set;
use crate::domain::{CatalogSnapshot, Metadata, Node, Revision, Symbol, XmlText};

verus! {

/// One write a transaction was asked for, as values.
pub enum WriteCall {
    /// A fragment's text, with the revision number the change is based on.
    UpsertFragment { target: Seq<char>, text: Seq<char>, expected: Option<u64> },
    /// A prompt's children.
    ReplacePrompt { target: Seq<char>, children: Seq<Seq<char>> },
    /// A rename.
    Rename { target: Seq<char>, new_symbol: Seq<char> },
    /// A deletion.
    Delete { target: Seq<char> },
    /// A node's metadata: its description and the set of its tags.
    SetMetadata { target: Seq<char>, description: Option<Seq<char>>, tags: Set<Seq<char>> },
}

/// The writes a transaction was asked for, oldest first.
pub type WriteLog = Seq<WriteCall>;

/// The revision number of an optional revision.
pub open spec fn revision_number_of(r: Option<Revision>) -> Option<u64> {
    match r {
        Some(rv) => Some(rv.number()),
        None => None,
    }
}

/// Whether each write succeeded, oldest first.
pub type WriteResults = Seq<bool>;

/// What each read of the catalog gave, oldest first: the nodes of the snapshot, or none when
/// the read failed.
pub type ReadLog = Seq<Option<Seq<Node>>>;

/// A consistent read of the catalog, implemented by a store. Each read is recorded in
/// `reads`; a read asks for no write.
pub trait CatalogRead {
    /// The reads made so far, oldest first.
    spec fn reads(&self) -> ReadLog;

    /// The writes asked for so far through this store, oldest first (none for a store that
    /// only reads; see `CatalogWrite`).
    spec fn writes(&self) -> WriteLog;

    /// Whether each write so far succeeded, oldest first.
    spec fn write_results(&self) -> WriteResults;

    /// The catalog as this reader currently sees it.
    fn snapshot(&mut self) -> (r: Result<CatalogSnapshot, Diagnostic>)
        ensures
            final(self).reads() == old(self).reads().push(
                match r {
                    Ok(s) => Some(s.nodes()),
                    Err(_) => None,
                },
            ),
            final(self).writes() == old(self).writes(),
            final(self).write_results() == old(self).write_results(),
    ;
}

/// Reads and writes of the catalog inside one transaction, implemented by a store. Each
/// write is recorded in `writes`, and whether it succeeded in `write_results`; a write reads
/// nothing.
pub trait CatalogWrite: CatalogRead {
    /// Creates a fragment or replaces its text, checking the revision it is based on.
    fn upsert_fragment(
        &mut self,
        target: &Symbol,
        text: &XmlText,
        expected_revision: Option<Revision>,
    ) -> (r: Result<(), Diagnostic>)
        ensures
            final(self).writes() == old(self).writes().push(
                WriteCall::UpsertFragment { target: target@, text: text@, expected: revision_number_of(expected_revision) },
            ),
            final(self).write_results() == old(self).write_results().push(r is Ok),
            final(self).reads() == old(self).reads(),
    ;

    /// Creates a prompt or replaces its children.
    fn replace_prompt(&mut self, target: &Symbol, children: &[Symbol]) -> (r: Result<(), Diagnostic>)
        ensures
            final(self).writes() == old(self).writes().push(
                WriteCall::ReplacePrompt { target: target@, children: children@.map_values(|c: Symbol| c@) },
            ),
            final(self).write_results() == old(self).write_results().push(r is Ok),
            final(self).reads() == old(self).reads(),
    ;

    /// Renames a node.
    fn rename(&mut self, target: &Symbol, new_symbol: &Symbol) -> (r: Result<(), Diagnostic>)
        ensures
            final(self).writes() == old(self).writes().push(WriteCall::Rename { target: target@, new_symbol: new_symbol@ }),
            final(self).write_results() == old(self).write_results().push(r is Ok),
            final(self).reads() == old(self).reads(),
    ;

    /// Deletes a node.
    fn delete(&mut self, target: &Symbol) -> (r: Result<(), Diagnostic>)
        ensures
            final(self).writes() == old(self).writes().push(WriteCall::Delete { target: target@ }),
            final(self).write_results() == old(self).write_results().push(r is Ok),
            final(self).reads() == old(self).reads(),
    ;

    /// Replaces a node's metadata.
    fn set_metadata(&mut self, target: &Symbol, metadata: &Metadata) -> (r: Result<(), Diagnostic>)
        ensures
            final(self).writes() == old(self).writes().push(
                WriteCall::SetMetadata {
                    target: target@,
                    description: metadata.description_view(),
                    tags: tag_set(metadata.tag_seq()),
                },
            ),
            final(self).write_results() == old(self).write_results().push(r is Ok),
            final(self).reads() == old(self).reads(),
    ;
}

} // verus!
