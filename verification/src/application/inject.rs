//! Injecting prepared fragment texts into the program recompiled inside the transaction,
//! after checking that no fragment changed identity while it was being edited.

use vstd::prelude::*;

use super::command::{CheckedProgram, Op};
use super::prepare::{upsert_targets, PreparedFragment};
use super::runtime::{internal_program_mismatch, mismatch_error};
use crate::diagnostic::{plain_error, Diagnostic, DiagnosticCategory};
use crate::domain::catalog::{holds_node, lists_node};
use crate::domain::{CatalogSnapshot, Node, NodeId, Revision, Symbol};
use crate::editor::EditTarget;

verus! {

/// Who a symbol belongs to while a program is checked: an existing node at a revision, or a
/// node that the program itself creates.
#[derive(Clone, Copy, Debug)]
pub enum Identity {
    /// A node of the catalog.
    Existing(NodeId, Revision),
    /// A node created by an earlier statement.
    Created,
}

/// Identity of each symbol in the catalog.
pub open spec fn initial_identity(ns: Seq<Node>, k: Seq<char>) -> Option<Identity> {
    if exists|i: int| 0 <= i < ns.len() && (#[trigger] ns[i]).header.symbol@ == k {
        let i = choose|i: int| 0 <= i < ns.len() && (#[trigger] ns[i]).header.symbol@ == k;
        Some(Identity::Existing(ns[i].header.id, ns[i].header.revision))
    } else {
        None
    }
}

/// Identity of a symbol after the first `i` statements.
pub open spec fn identity_after(ns: Seq<Node>, ops: Seq<Op>, i: int, k: Seq<char>) -> Option<Identity>
    decreases i,
{
    if i <= 0 {
        initial_identity(ns, k)
    } else {
        let prev = identity_after(ns, ops, i - 1, k);
        match ops[i - 1] {
            Op::UpsertFragment { target, .. } => if k == target@ && prev is None {
                Some(Identity::Created)
            } else {
                prev
            },
            Op::ReplacePrompt { target, .. } => if k == target@ && prev is None {
                Some(Identity::Created)
            } else {
                prev
            },
            Op::Rename { target, new_symbol } => if identity_after(ns, ops, i - 1, target@) is Some {
                if k == new_symbol@ {
                    identity_after(ns, ops, i - 1, target@)
                } else if k == target@ {
                    None
                } else {
                    prev
                }
            } else {
                prev
            },
            Op::Delete { target } => if k == target@ {
                None
            } else {
                prev
            },
            _ => prev,
        }
    }
}

/// The identity an edit started from: both parts, or neither.
pub open spec fn well_shaped(t: EditTarget) -> bool {
    (t.node_id is Some) == (t.base_revision is Some)
}

/// The identity an edit expects to find.
pub open spec fn expected_identity(t: EditTarget) -> Option<Identity> {
    match (t.node_id, t.base_revision) {
        (Some(id), Some(rev)) => Some(Identity::Existing(id, rev)),
        _ => None,
    }
}

/// The expected identity is what the statement finds.
pub open spec fn identity_matches(expected: Option<Identity>, actual: Option<Identity>) -> bool {
    match expected {
        Some(e) => actual == Some(e),
        None => actual is None || actual == Some(Identity::Created),
    }
}

/// Number of FRAGMENT statements among the first `i`.
pub open spec fn upserts_before(ops: Seq<Op>, i: int) -> int {
    upsert_targets(ops.take(i)).len() as int
}

/// The outcome of checking statements from `i` on: `0` accepted, `1` a disagreement with
/// what was prepared, `2` a fragment (named) that changed while it was being edited.
pub open spec fn injection_verdict(ns: Seq<Node>, ops: Seq<Op>, prep: Seq<PreparedFragment>, i: int) -> (int, Seq<char>)
    decreases ops.len() - i,
{
    if i >= ops.len() || i < 0 {
        if upserts_before(ops, ops.len() as int) < prep.len() {
            (1, Seq::empty())
        } else {
            (0, Seq::empty())
        }
    } else {
        match ops[i] {
            Op::UpsertFragment { target, .. } => {
                let j = upserts_before(ops, i);
                if j >= prep.len() || prep[j].target@ != target@ || !well_shaped(prep[j].edit_target) {
                    (1, Seq::empty())
                } else if !identity_matches(expected_identity(prep[j].edit_target), identity_after(ns, ops, i, target@)) {
                    (2, target@)
                } else {
                    injection_verdict(ns, ops, prep, i + 1)
                }
            },
            _ => injection_verdict(ns, ops, prep, i + 1),
        }
    }
}

/// The message of a fragment that changed while it was being edited.
pub open spec fn changed_message(target: Seq<char>) -> Seq<char> {
    "fragment `"@ + target + "` changed while it was being edited"@
}

/// `after` is `before` with the prepared texts and base revisions put into its FRAGMENT
/// statements, in order.
pub open spec fn injected(before: Seq<Op>, after: Seq<Op>, prep: Seq<PreparedFragment>) -> bool {
    &&& after.len() == before.len()
    &&& forall|i: int| 0 <= i < before.len() && !(before[i] is UpsertFragment) ==> #[trigger] after[i] == before[i]
    &&& forall|i: int| 0 <= i < before.len() && #[trigger] before[i] is UpsertFragment ==> {
        let j = upserts_before(before, i);
        &&& after[i] matches Op::UpsertFragment { target, text, expected_revision }
        &&& after[i]->UpsertFragment_target@ == before[i]->UpsertFragment_target@
        &&& after[i]->UpsertFragment_text matches Some(x)
        &&& after[i]->UpsertFragment_text->0@ == prep[j].text@
        &&& after[i]->UpsertFragment_expected_revision == prep[j].edit_target.base_revision
    }
}

struct IdentityEntry {
    symbol: Symbol,
    value: Option<Identity>,
}

spec fn lookup_upto(es: Seq<IdentityEntry>, k: Seq<char>, i: int) -> Option<Identity>
    decreases i,
{
    if i <= 0 {
        None
    } else if es[i - 1].symbol@ == k {
        es[i - 1].value
    } else {
        lookup_upto(es, k, i - 1)
    }
}

proof fn lemma_lookup_push(es: Seq<IdentityEntry>, x: IdentityEntry, k: Seq<char>, i: int)
    requires
        0 <= i <= es.len(),
    ensures
        lookup_upto(es.push(x), k, i) == lookup_upto(es, k, i),
    decreases i,
{
    if i > 0 {
        assert(es.push(x)[i - 1] == es[i - 1]);
        lemma_lookup_push(es, x, k, i - 1);
    }
}

struct IdentityTable {
    entries: Vec<IdentityEntry>,
}

impl IdentityTable {
    spec fn get(&self, k: Seq<char>) -> Option<Identity> {
        lookup_upto(self.entries@, k, self.entries@.len() as int)
    }

    fn set(&mut self, symbol: Symbol, value: Option<Identity>)
        ensures
            forall|k: Seq<char>| #[trigger] final(self).get(k) == if k == symbol@ { value } else { old(self).get(k) },
    {
        let ghost before = self.entries@;
        self.entries.push(IdentityEntry { symbol, value });
        proof {
            assert forall|k: Seq<char>| k != symbol@ implies #[trigger] self.get(k) == lookup_upto(before, k, before.len() as int) by {
                lemma_lookup_push(before, self.entries@.last(), k, before.len() as int);
            }
        }
    }

    fn lookup(&self, symbol: &Symbol) -> (r: Option<Identity>)
        ensures
            r == self.get(symbol@),
    {
        let mut i: usize = self.entries.len();
        while i > 0
            invariant
                0 <= i <= self.entries@.len(),
                self.get(symbol@) == lookup_upto(self.entries@, symbol@, i as int),
            decreases i,
        {
            let entry = &self.entries[i - 1];
            match crate::order::text_order(entry.symbol.as_str(), symbol.as_str()) {
                crate::order::Precedence::Same => {
                    return entry.value;
                },
                _ => {},
            }
            i = i - 1;
        }
        None
    }

    fn from_snapshot(snapshot: &CatalogSnapshot) -> (t: Self)
        ensures
            forall|k: Seq<char>| #[trigger] t.get(k) == initial_identity(snapshot.nodes(), k),
    {
        let nodes = snapshot.iter_by_symbol();
        let ghost ns = snapshot.nodes();
        let mut table = IdentityTable { entries: Vec::new() };
        let mut p: usize = 0;
        while p < nodes.len()
            invariant
                ns == snapshot.nodes(),
                crate::domain::catalog::unique_symbols(ns),
                0 <= p <= nodes@.len(),
                nodes@.len() == ns.len(),
                forall|q: int| 0 <= q < nodes@.len() ==> #[trigger] holds_node(ns, *nodes@[q]),
                forall|i: int| 0 <= i < ns.len() ==> #[trigger] lists_node(nodes@, ns[i]),
                forall|k: Seq<char>| #[trigger] table.get(k) == if exists|q: int| 0 <= q < p && (#[trigger] nodes@[q]).header.symbol@ == k {
                    initial_identity(ns, k)
                } else {
                    None
                },
            decreases nodes@.len() - p,
        {
            let node = nodes[p];
            let ghost sym = node.header.symbol@;
            proof {
                assert(holds_node(ns, *nodes@[p as int]));
                let i = choose|i: int| 0 <= i < ns.len() && ns[i] == *node;
                let w = choose|w: int| 0 <= w < ns.len() && (#[trigger] ns[w]).header.symbol@ == sym;
                assert(w == i);
            }
            table.set(node.header.symbol.clone(), Some(Identity::Existing(node.header.id, node.header.revision)));
            proof {
                assert forall|k: Seq<char>| #[trigger] table.get(k) == if exists|q: int| 0 <= q < p + 1 && (#[trigger] nodes@[q]).header.symbol@ == k {
                    initial_identity(ns, k)
                } else {
                    None
                } by {
                    if k != sym {
                        if exists|q: int| 0 <= q < p + 1 && (#[trigger] nodes@[q]).header.symbol@ == k {
                            let q = choose|q: int| 0 <= q < p + 1 && (#[trigger] nodes@[q]).header.symbol@ == k;
                            assert(q < p);
                        }
                    } else {
                        assert(nodes@[p as int].header.symbol@ == k);
                    }
                }
            }
            p = p + 1;
        }
        proof {
            assert forall|k: Seq<char>| #[trigger] table.get(k) == initial_identity(ns, k) by {
                if !exists|q: int| 0 <= q < p && (#[trigger] nodes@[q]).header.symbol@ == k {
                    if exists|i: int| 0 <= i < ns.len() && (#[trigger] ns[i]).header.symbol@ == k {
                        let i = choose|i: int| 0 <= i < ns.len() && (#[trigger] ns[i]).header.symbol@ == k;
                        assert(lists_node(nodes@, ns[i]));
                        let q = choose|q: int| 0 <= q < nodes@.len() && *nodes@[q] == ns[i];
                        assert(nodes@[q].header.symbol@ == k);
                    }
                }
            }
        }
        table
    }
}

fn same_identity(a: Identity, b: Identity) -> (r: bool)
    ensures
        r == (a == b),
{
    match (a, b) {
        (Identity::Existing(i1, r1), Identity::Existing(i2, r2)) => {
            proof {
                crate::domain::node::lemma_node_id_ext(i1, i2);
                crate::domain::node::lemma_revision_ext(r1, r2);
            }
            i1.get() == i2.get() && r1.get() == r2.get()
        },
        (Identity::Created, Identity::Created) => true,
        _ => false,
    }
}

fn identity_ok(expected: Option<Identity>, actual: Option<Identity>) -> (r: bool)
    ensures
        r == identity_matches(expected, actual),
{
    match expected {
        Some(e) => match actual {
            Some(a) => same_identity(a, e),
            None => false,
        },
        None => match actual {
            None => true,
            Some(Identity::Created) => true,
            Some(Identity::Existing(..)) => false,
        },
    }
}

proof fn lemma_upserts_step(ops: Seq<Op>, i: int)
    requires
        0 <= i < ops.len(),
    ensures
        upserts_before(ops, i + 1) == upserts_before(ops, i) + if ops[i] is UpsertFragment { 1int } else { 0int },
        ops[i] matches Op::UpsertFragment { target, .. } ==> upsert_targets(ops.take(i + 1)) == upsert_targets(ops.take(i)).push(target@),
{
    assert(ops.take(i + 1).drop_last() =~= ops.take(i));
}

/// Puts the texts prepared outside the transaction into the FRAGMENT statements of the
/// program recompiled inside it, in order.
///
/// Each FRAGMENT statement takes the next prepared text, which must be for the same symbol
/// and carry a well-formed identity; the identity the edit started from must still be what
/// the statement finds (an existing node at that revision, or no node or one created by an
/// earlier statement), else the fragment changed while it was being edited. Prepared texts
/// left over are a disagreement too. See `injection_verdict`.
pub fn inject_prepared(
    program: &mut CheckedProgram,
    prepared: &[PreparedFragment],
    authoritative: &CatalogSnapshot,
) -> (r: Result<(), Diagnostic>)
    ensures
        injection_verdict(authoritative.nodes(), old(program).ops@, prepared@, 0).0 == 0 ==> (r is Ok
            && injected(old(program).ops@, final(program).ops@, prepared@)
            && final(program).effects == old(program).effects),
        injection_verdict(authoritative.nodes(), old(program).ops@, prepared@, 0).0 == 1 ==> (r matches Err(d)
            && mismatch_error(d)),
        injection_verdict(authoritative.nodes(), old(program).ops@, prepared@, 0).0 == 2 ==> (r matches Err(d)
            && plain_error(d, "E_CONFLICT"@, DiagnosticCategory::Conflict, changed_message(
            injection_verdict(authoritative.nodes(), old(program).ops@, prepared@, 0).1,
        ))),
        injection_verdict(authoritative.nodes(), old(program).ops@, prepared@, 0).0 == 0
            || injection_verdict(authoritative.nodes(), old(program).ops@, prepared@, 0).0 == 1
            || injection_verdict(authoritative.nodes(), old(program).ops@, prepared@, 0).0 == 2,
{
    let ghost ns = authoritative.nodes();
    let ghost ops0 = program.ops@;
    let ghost verdict = injection_verdict(ns, ops0, prepared@, 0);
    let mut table = IdentityTable::from_snapshot(authoritative);
    let mut next: usize = 0;
    let mut i: usize = 0;
    while i < program.ops.len()
        invariant
            ns == authoritative.nodes(),
            ops0 == old(program).ops@,
            verdict == injection_verdict(ns, ops0, prepared@, 0),
            program.ops@.len() == ops0.len(),
            program.effects == old(program).effects,
            0 <= i <= ops0.len(),
            next == upserts_before(ops0, i as int),
            next <= prepared@.len(),
            injection_verdict(ns, ops0, prepared@, i as int) == verdict,
            forall|k: Seq<char>| #[trigger] table.get(k) == identity_after(ns, ops0, i as int, k),
            forall|t: int| i <= t < ops0.len() ==> #[trigger] program.ops@[t] == ops0[t],
            forall|t: int| 0 <= t < i && !(ops0[t] is UpsertFragment) ==> #[trigger] program.ops@[t] == ops0[t],
            forall|t: int| 0 <= t < i && #[trigger] ops0[t] is UpsertFragment ==> {
                let j = upserts_before(ops0, t);
                &&& program.ops@[t] matches Op::UpsertFragment { .. }
                &&& program.ops@[t]->UpsertFragment_target@ == ops0[t]->UpsertFragment_target@
                &&& program.ops@[t]->UpsertFragment_text matches Some(x)
                &&& program.ops@[t]->UpsertFragment_text->0@ == prepared@[j].text@
                &&& program.ops@[t]->UpsertFragment_expected_revision == prepared@[j].edit_target.base_revision
            },
        decreases ops0.len() - i,
    {
        proof {
            lemma_upserts_step(ops0, i as int);
        }
        let ghost before_table = table;
        match &program.ops[i] {
            Op::UpsertFragment { target, .. } => {
                if next >= prepared.len() {
                    return Err(internal_program_mismatch());
                }
                let edit = &prepared[next];
                let same_target = match crate::order::text_order(edit.target.as_str(), target.as_str()) {
                    crate::order::Precedence::Same => true,
                    _ => false,
                };
                if !same_target {
                    return Err(internal_program_mismatch());
                }
                let expected = match (edit.edit_target.node_id, edit.edit_target.base_revision) {
                    (Some(id), Some(revision)) => Some(Identity::Existing(id, revision)),
                    (None, None) => None,
                    _ => {
                        return Err(internal_program_mismatch());
                    },
                };
                let actual = table.lookup(target);
                if !identity_ok(expected, actual) {
                    let mut message = String::new();
                    message.push_str("fragment `");
                    message.push_str(target.as_str());
                    message.push_str("` changed while it was being edited");
                    return Err(Diagnostic::error("E_CONFLICT", DiagnosticCategory::Conflict, message.as_str()));
                }
                let name = target.clone();
                if actual.is_none() {
                    table.set(target.clone(), Some(Identity::Created));
                }
                let replacement = Op::UpsertFragment {
                    target: name,
                    text: Some(edit.text.clone()),
                    expected_revision: edit.edit_target.base_revision,
                };
                program.ops.set(i, replacement);
                next = next + 1;
            },
            Op::Rename { target, new_symbol } => {
                match table.lookup(target) {
                    Some(identity) => {
                        table.set(target.clone(), None);
                        table.set(new_symbol.clone(), Some(identity));
                    },
                    None => {},
                }
            },
            Op::Delete { target } => {
                table.set(target.clone(), None);
            },
            Op::ReplacePrompt { target, .. } => {
                if table.lookup(target).is_none() {
                    table.set(target.clone(), Some(Identity::Created));
                }
            },
            _ => {},
        }
        i = i + 1;
    }
    if next < prepared.len() {
        proof {
            assert(ops0.take(ops0.len() as int) =~= ops0);
        }
        return Err(internal_program_mismatch());
    }
    proof {
        assert(ops0.take(ops0.len() as int) =~= ops0);
    }
    Ok(())
}

} // verus!
