//! Domain-invariant errors.

use vstd::prelude::*;

use super::node::{NodeId, NodeKind};
use crate::text::{decimal, hex4, push_decimal, push_hex4, push_signed_decimal, signed_decimal};

verus! {

/// Domain-invariant error.
#[derive(Debug, Clone, PartialEq, Eq)]
pub enum DomainError {
    /// A numeric identity is not positive.
    InvalidPositiveInteger {
        /// Identity value kind.
        kind: &'static str,
        /// Rejected value.
        value: i128,
    },
    /// A symbol violates the strict XML-name subset.
    InvalidSymbol(String),
    /// Text contains a character forbidden by XML 1.0.
    InvalidXmlCharacter {
        /// Rejected Unicode scalar value.
        character: char,
        /// Byte offset of the character in the UTF-8 text.
        byte_offset: usize,
    },
    /// A prompt child list is empty.
    EmptyChildren,
    /// A tag is empty or whitespace-only.
    EmptyTag,
    /// Node header and body kinds disagree.
    KindMismatch {
        /// Kind declared by the node header.
        declared: NodeKind,
        /// Kind derived from the node body.
        actual: NodeKind,
    },
    /// A snapshot contains a duplicate node id.
    DuplicateNodeId(NodeId),
    /// A snapshot contains a duplicate symbol.
    DuplicateSymbol(String),
    /// The graph references a missing node.
    MissingNode(NodeId),
    /// The graph contains a directed cycle.
    CycleDetected {
        /// Node where the cycle was detected.
        at: NodeId,
    },
    /// An expanded path count exceeds `u64`.
    OccurrenceOverflow {
        /// Node whose count overflowed.
        at: NodeId,
    },
}

/// The name of a node kind.
pub open spec fn kind_name(k: NodeKind) -> Seq<char> {
    match k {
        NodeKind::Fragment => "Fragment"@,
        NodeKind::Prompt => "Prompt"@,
    }
}

/// The text of a node identity.
pub open spec fn id_text(id: NodeId) -> Seq<char> {
    signed_decimal(id.id() as int)
}

/// The user-facing explanation of a domain error.
pub open spec fn domain_message(e: DomainError) -> Seq<char> {
    match e {
        DomainError::InvalidPositiveInteger { kind, value } => kind@ + " must be positive, got "@
            + signed_decimal(value as int),
        DomainError::InvalidSymbol(v) => "invalid symbol `"@ + v@ + "`"@,
        DomainError::InvalidXmlCharacter { character, byte_offset } => "character U+"@ + hex4(
            (character as u32) as nat,
        ) + " at byte "@ + decimal(byte_offset as nat) + " is not valid XML 1.0 text"@,
        DomainError::EmptyChildren => "a prompt must contain at least one child"@,
        DomainError::EmptyTag => "a tag must not be empty or whitespace-only"@,
        DomainError::KindMismatch { declared, actual } => "declared node kind "@ + kind_name(declared)
            + " does not match body kind "@ + kind_name(actual),
        DomainError::DuplicateNodeId(id) => "duplicate node id "@ + id_text(id),
        DomainError::DuplicateSymbol(v) => "duplicate symbol `"@ + v@ + "`"@,
        DomainError::MissingNode(id) => "missing node "@ + id_text(id),
        DomainError::CycleDetected { at } => "cycle detected at node "@ + id_text(at),
        DomainError::OccurrenceOverflow { at } => "occurrence count overflow at node "@ + id_text(at),
    }
}

/// Appends the name of a node kind.
pub fn push_kind_name(out: &mut String, k: NodeKind)
    ensures
        final(out)@ == old(out)@ + kind_name(k),
{
    match k {
        NodeKind::Fragment => out.push_str("Fragment"),
        NodeKind::Prompt => out.push_str("Prompt"),
    }
}

/// Appends the text of a node identity.
pub fn push_id(out: &mut String, id: NodeId)
    ensures
        final(out)@ == old(out)@ + id_text(id),
{
    push_signed_decimal(out, id.get() as i128);
}

impl DomainError {
    /// The user-facing explanation of the error.
    pub fn message(&self) -> (m: String)
        ensures
            m@ == domain_message(*self),
    {
        let mut out = String::new();
        match self {
            DomainError::InvalidPositiveInteger { kind, value } => {
                out.push_str(kind);
                out.push_str(" must be positive, got ");
                push_signed_decimal(&mut out, *value);
            },
            DomainError::InvalidSymbol(v) => {
                out.push_str("invalid symbol `");
                out.push_str(v.as_str());
                out.push_str("`");
            },
            DomainError::InvalidXmlCharacter { character, byte_offset } => {
                out.push_str("character U+");
                push_hex4(&mut out, *character as u32);
                out.push_str(" at byte ");
                push_decimal(&mut out, *byte_offset as u128);
                out.push_str(" is not valid XML 1.0 text");
            },
            DomainError::EmptyChildren => out.push_str("a prompt must contain at least one child"),
            DomainError::EmptyTag => out.push_str("a tag must not be empty or whitespace-only"),
            DomainError::KindMismatch { declared, actual } => {
                out.push_str("declared node kind ");
                push_kind_name(&mut out, *declared);
                out.push_str(" does not match body kind ");
                push_kind_name(&mut out, *actual);
            },
            DomainError::DuplicateNodeId(id) => {
                out.push_str("duplicate node id ");
                push_id(&mut out, *id);
            },
            DomainError::DuplicateSymbol(v) => {
                out.push_str("duplicate symbol `");
                out.push_str(v.as_str());
                out.push_str("`");
            },
            DomainError::MissingNode(id) => {
                out.push_str("missing node ");
                push_id(&mut out, *id);
            },
            DomainError::CycleDetected { at } => {
                out.push_str("cycle detected at node ");
                push_id(&mut out, *at);
            },
            DomainError::OccurrenceOverflow { at } => {
                out.push_str("occurrence count overflow at node ");
                push_id(&mut out, *at);
            },
        }
        proof {
            assert(out@ =~= domain_message(*self));
        }
        out
    }
}

} // verus!
