//! The runtime: checks preconditions, prepares fragment texts, injects them into the
//! authoritative program, and interprets operations against a catalog.

use vstd::prelude::*;

use super::command::{CheckedProgram, NodeFilter, Op};
use super::invocation::NodePrecondition;
use super::value::NodeView;
use crate::diagnostic::{plain_error, Diagnostic, DiagnosticCategory};
use crate::domain::catalog::{holds_node, unique_symbols};
use crate::domain::error::{domain_message, id_text, push_id};
use crate::domain::graph::{has_id, index_of};
use crate::domain::metadata::same_metadata;
use crate::domain::{CatalogSnapshot, DomainError, Node, NodeBody, NodeKind, Symbol};
use crate::text::{decimal, push_decimal};

verus! {

/// Whether a listing filter keeps nodes of a kind.
pub open spec fn keeps(filter: NodeFilter, kind: NodeKind) -> bool {
    match filter {
        NodeFilter::All => true,
        NodeFilter::Fragments => kind == NodeKind::Fragment,
        NodeFilter::Prompts => kind == NodeKind::Prompt,
    }
}

/// Whether a listing filter keeps nodes of a kind.
pub fn filter_matches(filter: NodeFilter, kind: NodeKind) -> (b: bool)
    ensures
        b == keeps(filter, kind),
{
    match filter {
        NodeFilter::All => true,
        NodeFilter::Fragments => match kind {
            NodeKind::Fragment => true,
            NodeKind::Prompt => false,
        },
        NodeFilter::Prompts => match kind {
            NodeKind::Fragment => false,
            NodeKind::Prompt => true,
        },
    }
}

/// The symbol of the node with identity `id`.
pub open spec fn symbol_of(ns: Seq<Node>, id: crate::domain::NodeId) -> Seq<char> {
    ns[index_of(ns, id)].header.symbol@
}

/// `v` shows node `n` of the catalog `ns`.
pub open spec fn shows(ns: Seq<Node>, n: Node, v: NodeView) -> bool {
    &&& v.id == n.header.id
    &&& v.symbol@ == n.header.symbol@
    &&& v.kind == n.header.kind
    &&& v.revision == n.header.revision
    &&& v.children@.len() == n.body.children().len()
    &&& forall|k: int| 0 <= k < v.children@.len() ==> (#[trigger] v.children@[k])@ == symbol_of(ns, n.body.children()[k])
    &&& v.byte_size == match n.body {
        NodeBody::Fragment(t) => Some(vstd::utf8::encode_utf8(t@).len() as usize),
        NodeBody::Prompt(_) => None,
    }
    &&& same_metadata(v.metadata, n.header.metadata)
}

/// The error for an unknown symbol.
pub open spec fn unknown_symbol_error(d: Diagnostic, symbol: Seq<char>) -> bool {
    plain_error(d, "E_UNKNOWN_SYMBOL"@, DiagnosticCategory::ReferentialIntegrity, "unknown symbol `"@ + symbol + "`"@)
}

/// The error for a program that disagrees with what was prepared for it.
pub open spec fn mismatch_error(d: Diagnostic) -> bool {
    plain_error(d, "E_INTERNAL_PROGRAM"@, DiagnosticCategory::Internal, "checked program and runtime preparation disagree"@)
}

/// Reports an unknown symbol.
pub fn unknown_symbol(symbol: &Symbol) -> (d: Diagnostic)
    ensures
        unknown_symbol_error(d, symbol@),
{
    let mut message = String::new();
    message.push_str("unknown symbol `");
    message.push_str(symbol.as_str());
    message.push_str("`");
    Diagnostic::error("E_UNKNOWN_SYMBOL", DiagnosticCategory::ReferentialIntegrity, message.as_str())
}

/// Reports a program that disagrees with what was prepared for it.
pub fn internal_program_mismatch() -> (d: Diagnostic)
    ensures
        mismatch_error(d),
{
    Diagnostic::error(
        "E_INTERNAL_PROGRAM",
        DiagnosticCategory::Internal,
        "checked program and runtime preparation disagree",
    )
}

/// The stable code of a domain error.
pub open spec fn domain_code(e: DomainError) -> Seq<char> {
    match e {
        DomainError::InvalidPositiveInteger { .. } => "E_INVALID_INTEGER"@,
        DomainError::InvalidSymbol(_) => "E_INVALID_SYMBOL"@,
        DomainError::InvalidXmlCharacter { .. } => "E_INVALID_XML_TEXT"@,
        DomainError::EmptyChildren => "E_EMPTY_PROMPT"@,
        DomainError::EmptyTag => "E_INVALID_TAG"@,
        DomainError::KindMismatch { .. } => "E_NODE_KIND"@,
        DomainError::DuplicateNodeId(_) => "E_DUPLICATE_NODE_ID"@,
        DomainError::DuplicateSymbol(_) => "E_SYMBOL_EXISTS"@,
        DomainError::MissingNode(_) => "E_REF_MISSING"@,
        DomainError::CycleDetected { .. } => "E_CYCLE"@,
        DomainError::OccurrenceOverflow { .. } => "E_OCCURRENCE_OVERFLOW"@,
    }
}

/// The category of a domain error.
pub open spec fn domain_category(e: DomainError) -> DiagnosticCategory {
    match e {
        DomainError::MissingNode(_) => DiagnosticCategory::ReferentialIntegrity,
        DomainError::CycleDetected { .. } => DiagnosticCategory::ReferentialIntegrity,
        _ => DiagnosticCategory::Domain,
    }
}

/// Maps a domain error to its public diagnostic.
pub fn domain_diagnostic(error: DomainError) -> (d: Diagnostic)
    ensures
        plain_error(d, domain_code(error), domain_category(error), domain_message(error)),
{
    let code = match &error {
        DomainError::InvalidPositiveInteger { .. } => "E_INVALID_INTEGER",
        DomainError::InvalidSymbol(_) => "E_INVALID_SYMBOL",
        DomainError::InvalidXmlCharacter { .. } => "E_INVALID_XML_TEXT",
        DomainError::EmptyChildren => "E_EMPTY_PROMPT",
        DomainError::EmptyTag => "E_INVALID_TAG",
        DomainError::KindMismatch { .. } => "E_NODE_KIND",
        DomainError::DuplicateNodeId(_) => "E_DUPLICATE_NODE_ID",
        DomainError::DuplicateSymbol(_) => "E_SYMBOL_EXISTS",
        DomainError::MissingNode(_) => "E_REF_MISSING",
        DomainError::CycleDetected { .. } => "E_CYCLE",
        DomainError::OccurrenceOverflow { .. } => "E_OCCURRENCE_OVERFLOW",
    };
    let category = match &error {
        DomainError::MissingNode(_) => DiagnosticCategory::ReferentialIntegrity,
        DomainError::CycleDetected { .. } => DiagnosticCategory::ReferentialIntegrity,
        _ => DiagnosticCategory::Domain,
    };
    let message = error.message();
    Diagnostic::error(code, category, message.as_str())
}

/// The message for a child that names no node.
pub open spec fn dangling_message(id: crate::domain::NodeId) -> Seq<char> {
    "missing child node "@ + id_text(id)
}

/// Projects a node of a catalog for hosts, naming its children by symbol.
pub fn node_view(snapshot: &CatalogSnapshot, node: &Node) -> (r: Result<NodeView, Diagnostic>)
    ensures
        (forall|k: int| 0 <= k < node.body.children().len() ==> has_id(snapshot.nodes(), #[trigger] node.body.children()[k]))
            ==> (r matches Ok(v) && shows(snapshot.nodes(), *node, v)),
        !(forall|k: int| 0 <= k < node.body.children().len() ==> has_id(snapshot.nodes(), #[trigger] node.body.children()[k]))
            ==> (r matches Err(d) && exists|k: int| 0 <= k < node.body.children().len()
                && !has_id(snapshot.nodes(), node.body.children()[k])
                && (forall|j: int| 0 <= j < k ==> has_id(snapshot.nodes(), #[trigger] node.body.children()[j]))
                && plain_error(d, "E_DANGLING"@, DiagnosticCategory::ReferentialIntegrity, dangling_message(node.body.children()[k]))),
{
    let ghost ns = snapshot.nodes();
    let (children, byte_size) = match &node.body {
        NodeBody::Fragment(text) => {
            proof {
                broadcast use vstd::string::group_string_axioms;
            }
            let size = text.as_str().len();
            (Vec::new(), Some(size))
        },
        NodeBody::Prompt(list) => {
            let ids = list.as_slice();
            let mut out: Vec<Symbol> = Vec::new();
            let mut k: usize = 0;
            while k < ids.len()
                invariant
                    ns == snapshot.nodes(),
                    ids@ == node.body.children(),
                    0 <= k <= ids@.len(),
                    out@.len() == k,
                    forall|j: int| 0 <= j < k ==> has_id(ns, #[trigger] ids@[j]),
                    forall|j: int| 0 <= j < k ==> (#[trigger] out@[j])@ == symbol_of(ns, ids@[j]),
                decreases ids@.len() - k,
            {
                match snapshot.get(ids[k]) {
                    Some(child) => {
                        out.push(child.header.symbol.clone());
                    },
                    None => {
                        let mut message = String::new();
                        message.push_str("missing child node ");
                        push_id(&mut message, ids[k]);
                        return Err(Diagnostic::error("E_DANGLING", DiagnosticCategory::ReferentialIntegrity, message.as_str()));
                    },
                }
                k = k + 1;
            }
            (out, None)
        },
    };
    proof {
        broadcast use vstd::string::group_string_axioms;
    }
    Ok(NodeView {
        id: node.header.id,
        symbol: node.header.symbol.clone(),
        kind: node.header.kind,
        revision: node.header.revision,
        children,
        byte_size,
        metadata: node.header.metadata.clone(),
    })
}

/// The catalog still binds the precondition's symbol to its node identity and revision.
pub open spec fn precondition_holds(ns: Seq<Node>, c: NodePrecondition) -> bool {
    exists|i: int|
        0 <= i < ns.len() && (#[trigger] ns[i]).header.symbol@ == c.spec_symbol() && ns[i].header.id
            == c.spec_node_id() && ns[i].header.revision == c.spec_revision()
}

/// What the catalog holds under the precondition's symbol, in words.
pub open spec fn found_text(ns: Seq<Node>, c: NodePrecondition) -> Seq<char> {
    if exists|i: int| 0 <= i < ns.len() && (#[trigger] ns[i]).header.symbol@ == c.spec_symbol() {
        let i = choose|i: int| 0 <= i < ns.len() && (#[trigger] ns[i]).header.symbol@ == c.spec_symbol();
        "node id "@ + id_text(ns[i].header.id) + ", revision "@ + decimal(ns[i].header.revision.number() as nat)
    } else {
        "missing or renamed"@
    }
}

/// The message of a failed precondition.
pub open spec fn conflict_message(ns: Seq<Node>, c: NodePrecondition) -> Seq<char> {
    "node `"@ + c.spec_symbol() + "` changed (expected node id "@ + id_text(c.spec_node_id())
        + ", revision "@ + decimal(c.spec_revision().number() as nat) + "; found "@ + found_text(ns, c) + ")"@
}

/// Checks that every precondition still holds in one snapshot; the first that does not is
/// reported as a conflict.
pub fn validate_preconditions(snapshot: &CatalogSnapshot, preconditions: &[NodePrecondition]) -> (r: Result<(), Diagnostic>)
    ensures
        r is Ok <==> (forall|k: int| 0 <= k < preconditions@.len() ==> precondition_holds(snapshot.nodes(), #[trigger] preconditions@[k])),
        r matches Err(d) ==> exists|k: int| 0 <= k < preconditions@.len()
            && !precondition_holds(snapshot.nodes(), preconditions@[k])
            && (forall|j: int| 0 <= j < k ==> precondition_holds(snapshot.nodes(), #[trigger] preconditions@[j]))
            && plain_error(d, "E_CONFLICT"@, DiagnosticCategory::Conflict, conflict_message(snapshot.nodes(), preconditions@[k])),
{
    let ghost ns = snapshot.nodes();
    let mut k: usize = 0;
    while k < preconditions.len()
        invariant
            ns == snapshot.nodes(),
            0 <= k <= preconditions@.len(),
            forall|j: int| 0 <= j < k ==> precondition_holds(ns, #[trigger] preconditions@[j]),
        decreases preconditions@.len() - k,
    {
        let condition = &preconditions[k];
        let actual = snapshot.get_by_symbol(condition.symbol());
        let mut description = String::new();
        match actual {
            Some(node) => {
                if node.header.id.get() == condition.node_id().get() && node.header.revision.get() == condition.revision().get() {
                    proof {
                        crate::domain::node::lemma_node_id_ext(node.header.id, condition.spec_node_id());
                        crate::domain::node::lemma_revision_ext(node.header.revision, condition.spec_revision());
                        let i = choose|i: int| 0 <= i < ns.len() && ns[i] == *node;
                        assert(ns[i].header.symbol@ == condition.spec_symbol());
                    }
                    k = k + 1;
                    continue;
                }
                proof {
                    let i = choose|i: int| 0 <= i < ns.len() && ns[i] == *node;
                    assert(ns[i].header.symbol@ == condition.spec_symbol());
                    let w = choose|i: int| 0 <= i < ns.len() && (#[trigger] ns[i]).header.symbol@ == condition.spec_symbol();
                    assert(unique_symbols(ns));
                    assert(w == i);
                    if precondition_holds(ns, *condition) {
                        let h = choose|h: int| 0 <= h < ns.len() && (#[trigger] ns[h]).header.symbol@ == condition.spec_symbol() && ns[h].header.id
                            == condition.spec_node_id() && ns[h].header.revision == condition.spec_revision();
                        assert(h == i);
                    }
                }
                description.push_str("node id ");
                push_id(&mut description, node.header.id);
                description.push_str(", revision ");
                push_decimal(&mut description, node.header.revision.get() as u128);
            },
            None => {
                description.push_str("missing or renamed");
            },
        }
        let mut message = String::new();
        message.push_str("node `");
        message.push_str(condition.symbol().as_str());
        message.push_str("` changed (expected node id ");
        push_id(&mut message, condition.node_id());
        message.push_str(", revision ");
        push_decimal(&mut message, condition.revision().get() as u128);
        message.push_str("; found ");
        message.push_str(description.as_str());
        message.push_str(")");
        proof {
            assert(message@ =~= conflict_message(ns, *condition));
        }
        return Err(Diagnostic::error("E_CONFLICT", DiagnosticCategory::Conflict, message.as_str()));
    }
    Ok(())
}

} // verus!
