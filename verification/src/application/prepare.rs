//! Preparing fragment texts before the write transaction: each FRAGMENT statement is edited
//! in turn, starting from the text that the statements before it leave behind.

use vstd::prelude::*;

use super::command::{CheckedProgram, Op};
use super::runtime::{domain_code, domain_category, domain_diagnostic};
use crate::diagnostic::{plain_error, Diagnostic, DiagnosticCategory};
use crate::domain::catalog::{holds_node, lists_node};
use crate::domain::error::domain_message;
use crate::domain::node::xml_char;
use crate::domain::{CatalogSnapshot, DomainError, NodeBody, NodeId, Symbol, XmlText};
use crate::editor::{editor_message, Answer, EditRequest, EditTarget, EditorError, EditorOutcome, TextProvider};

verus! {

/// A fragment text prepared outside the write transaction.
#[derive(Debug, Clone)]
pub struct PreparedFragment {
    /// The symbol the statement names.
    pub target: Symbol,
    /// The identity the edit started from.
    pub edit_target: EditTarget,
    /// The validated text.
    pub text: XmlText,
}

/// What the staging holds for a symbol: the identity an edit starts from and the current
/// draft.
pub type Staged = Option<(EditTarget, Seq<char>)>;

struct StageEntry {
    symbol: Symbol,
    value: Option<(EditTarget, String)>,
}

spec fn entry_value(e: StageEntry) -> Staged {
    match e.value {
        Some((t, s)) => Some((t, s@)),
        None => None,
    }
}

/// The latest entry for `k` among the first `i` entries.
spec fn lookup_upto(es: Seq<StageEntry>, k: Seq<char>, i: int) -> Staged
    decreases i,
{
    if i <= 0 {
        None
    } else if es[i - 1].symbol@ == k {
        entry_value(es[i - 1])
    } else {
        lookup_upto(es, k, i - 1)
    }
}

proof fn lemma_lookup_push(es: Seq<StageEntry>, x: StageEntry, k: Seq<char>, i: int)
    requires
        0 <= i <= es.len(),
    ensures
        lookup_upto(es.push(x), k, i) == lookup_upto(es, k, i),
    decreases i,
{
    if i > 0 {
        assert(es.push(x)[i - 1] == es[i - 1]);
        lemma_lookup_push(es, x, k, i - 1);
    }
}

/// The fragment drafts seen by the statements of one program, keyed by symbol.
pub struct FragmentStaging {
    entries: Vec<StageEntry>,
}

/// What a catalog stages for a symbol at the start: the fragment of that symbol, with its
/// identity, revision and text.
pub open spec fn initial_stage(ns: Seq<crate::domain::Node>, k: Seq<char>) -> Staged {
    if exists|i: int| 0 <= i < ns.len() && (#[trigger] ns[i]).header.symbol@ == k && ns[i].body is Fragment {
        let i = choose|i: int| 0 <= i < ns.len() && (#[trigger] ns[i]).header.symbol@ == k && ns[i].body is Fragment;
        Some((
            EditTarget { node_id: Some(ns[i].header.id), base_revision: Some(ns[i].header.revision) },
            ns[i].body->Fragment_0@,
        ))
    } else {
        None
    }
}

impl FragmentStaging {
    /// What is staged for a symbol.
    pub closed spec fn staged(&self, k: Seq<char>) -> Staged {
        lookup_upto(self.entries@, k, self.entries@.len() as int)
    }

    fn push_entry(&mut self, symbol: Symbol, value: Option<(EditTarget, String)>)
        ensures
            forall|k: Seq<char>| #[trigger] final(self).staged(k) == if k == symbol@ {
                match value {
                    Some((t, s)) => Some((t, s@)),
                    None => None,
                }
            } else {
                old(self).staged(k)
            },
    {
        let ghost before = self.entries@;
        let ghost e = StageEntry { symbol, value };
        self.entries.push(StageEntry { symbol, value });
        proof {
            assert forall|k: Seq<char>| k != symbol@ implies #[trigger] self.staged(k) == lookup_upto(before, k, before.len() as int) by {
                lemma_lookup_push(before, self.entries@.last(), k, before.len() as int);
            }
        }
    }

    /// Stages every fragment of a catalog.
    pub fn from_snapshot(snapshot: &CatalogSnapshot) -> (s: Self)
        ensures
            forall|k: Seq<char>| #[trigger] s.staged(k) == initial_stage(snapshot.nodes(), k),
    {
        let nodes = snapshot.iter_by_symbol();
        let ghost ns = snapshot.nodes();
        let mut staging = FragmentStaging { entries: Vec::new() };
        let mut p: usize = 0;
        while p < nodes.len()
            invariant
                ns == snapshot.nodes(),
                crate::domain::catalog::unique_symbols(ns),
                0 <= p <= nodes@.len(),
                nodes@.len() == ns.len(),
                forall|q: int| 0 <= q < nodes@.len() ==> #[trigger] holds_node(ns, *nodes@[q]),
                forall|i: int| 0 <= i < ns.len() ==> #[trigger] lists_node(nodes@, ns[i]),
                forall|q1: int, q2: int| 0 <= q1 < q2 < nodes@.len() ==> crate::order::text_lt((#[trigger] nodes@[q1]).header.symbol@, (#[trigger] nodes@[q2]).header.symbol@),
                forall|k: Seq<char>| #[trigger] staging.staged(k) == if exists|q: int| 0 <= q < p && (#[trigger] nodes@[q]).header.symbol@ == k {
                    initial_stage(ns, k)
                } else {
                    None
                },
            decreases nodes@.len() - p,
        {
            let node = nodes[p];
            let ghost sym = node.header.symbol@;
            proof {
                assert(holds_node(ns, *nodes@[p as int]));
                let i = choose|i: int| 0 <= i < ns.len() && ns[i] == *node;
                assert forall|q: int| 0 <= q < p implies (#[trigger] nodes@[q]).header.symbol@ != sym by {
                    crate::order::lemma_text_lt_irreflexive(sym);
                }
            }
            match &node.body {
                NodeBody::Fragment(text) => {
                    let target = EditTarget { node_id: Some(node.header.id), base_revision: Some(node.header.revision) };
                    let draft = text.as_str().to_owned();
                    staging.push_entry(node.header.symbol.clone(), Some((target, draft)));
                    proof {
                        let i = choose|i: int| 0 <= i < ns.len() && ns[i] == *node;
                        assert(ns[i].header.symbol@ == sym && ns[i].body is Fragment);
                        let w = choose|w: int| 0 <= w < ns.len() && (#[trigger] ns[w]).header.symbol@ == sym && ns[w].body is Fragment;
                        assert(w == i);
                    }
                },
                NodeBody::Prompt(_) => {
                    staging.push_entry(node.header.symbol.clone(), None);
                    proof {
                        let i = choose|i: int| 0 <= i < ns.len() && ns[i] == *node;
                        assert(ns[i].header.symbol@ == sym && !(ns[i].body is Fragment));
                        assert(!exists|w: int| 0 <= w < ns.len() && (#[trigger] ns[w]).header.symbol@ == sym && ns[w].body is Fragment);
                    }
                },
            }
            proof {
                assert forall|k: Seq<char>| #[trigger] staging.staged(k) == if exists|q: int| 0 <= q < p + 1 && (#[trigger] nodes@[q]).header.symbol@ == k {
                    initial_stage(ns, k)
                } else {
                    None
                } by {
                    if k != sym {
                        if exists|q: int| 0 <= q < p + 1 && (#[trigger] nodes@[q]).header.symbol@ == k {
                            let q = choose|q: int| 0 <= q < p + 1 && (#[trigger] nodes@[q]).header.symbol@ == k;
                            assert(q < p);
                        }
                    } else {
                        assert(nodes@[p as int].header.symbol@ == k);
                    }
                }
            }
            p = p + 1;
        }
        proof {
            assert forall|k: Seq<char>| #[trigger] staging.staged(k) == initial_stage(ns, k) by {
                if !exists|q: int| 0 <= q < p && (#[trigger] nodes@[q]).header.symbol@ == k {
                    if exists|i: int| 0 <= i < ns.len() && (#[trigger] ns[i]).header.symbol@ == k && ns[i].body is Fragment {
                        let i = choose|i: int| 0 <= i < ns.len() && (#[trigger] ns[i]).header.symbol@ == k && ns[i].body is Fragment;
                        assert(lists_node(nodes@, ns[i]));
                        let q = choose|q: int| 0 <= q < nodes@.len() && *nodes@[q] == ns[i];
                        assert(nodes@[q].header.symbol@ == k);
                    }
                }
            }
        }
        staging
    }

    fn lookup(&self, symbol: &Symbol) -> (r: Option<(EditTarget, String)>)
        ensures
            self.staged(symbol@) == match r {
                Some((t, s)) => Some((t, s@)),
                None => None,
            },
    {
        let mut i: usize = self.entries.len();
        while i > 0
            invariant
                0 <= i <= self.entries@.len(),
                self.staged(symbol@) == lookup_upto(self.entries@, symbol@, i as int),
            decreases i,
        {
            let entry = &self.entries[i - 1];
            match crate::order::text_order(entry.symbol.as_str(), symbol.as_str()) {
                crate::order::Precedence::Same => {
                    return match &entry.value {
                        Some((t, s)) => Some((*t, s.clone())),
                        None => None,
                    };
                },
                _ => {},
            }
            i = i - 1;
        }
        None
    }

    /// The request that edits the draft staged for a symbol, or a new empty fragment.
    pub fn request_for(&self, symbol: &Symbol) -> (r: EditRequest)
        ensures
            match self.staged(symbol@) {
                Some((t, s)) => r.target == t && r.original_text@ == s,
                None => r.target == (EditTarget { node_id: None, base_revision: None }) && r.original_text@ == Seq::<char>::empty(),
            },
    {
        match self.lookup(symbol) {
            Some((t, s)) => EditRequest { target: t, original_text: s },
            None => EditRequest { target: EditTarget { node_id: None, base_revision: None }, original_text: String::new() },
        }
    }

    /// Stages a saved draft for a symbol.
    pub fn save(&mut self, symbol: Symbol, target: EditTarget, text: String)
        ensures
            forall|k: Seq<char>| #[trigger] final(self).staged(k) == if k == symbol@ {
                Some((target, text@))
            } else {
                old(self).staged(k)
            },
    {
        self.push_entry(symbol, Some((target, text)));
    }

    /// Forgets what is staged for a symbol.
    pub fn remove(&mut self, symbol: &Symbol)
        ensures
            forall|k: Seq<char>| #[trigger] final(self).staged(k) == if k == symbol@ {
                None
            } else {
                old(self).staged(k)
            },
    {
        self.push_entry(symbol.clone(), None);
    }

    /// Moves what is staged for a symbol to a new symbol.
    pub fn rename(&mut self, target: &Symbol, new_symbol: &Symbol)
        ensures
            old(self).staged(target@) is None ==> forall|k: Seq<char>| #[trigger] final(self).staged(k) == old(self).staged(k),
            old(self).staged(target@) is Some ==> forall|k: Seq<char>| #[trigger] final(self).staged(k) == if k == new_symbol@ {
                old(self).staged(target@)
            } else if k == target@ {
                None
            } else {
                old(self).staged(k)
            },
    {
        match self.lookup(target) {
            Some((t, text)) => {
                self.push_entry(target.clone(), None);
                self.push_entry(new_symbol.clone(), Some((t, text)));
            },
            None => {},
        }
    }
}

/// The identity a provider returned is well formed (both parts or neither) and names the
/// node the request named.
pub open spec fn identity_kept(request: EditTarget, returned: EditTarget) -> bool {
    &&& (returned.node_id is Some) == (returned.base_revision is Some)
    &&& returned.node_id == request.node_id
}

/// All characters of a text are allowed in XML.
pub open spec fn valid_xml(s: Seq<char>) -> bool {
    forall|i: int| 0 <= i < s.len() ==> xml_char(#[trigger] s[i])
}

fn same_node(a: Option<NodeId>, b: Option<NodeId>) -> (r: bool)
    ensures
        r == (a == b),
{
    match (a, b) {
        (Some(x), Some(y)) => {
            proof {
                crate::domain::node::lemma_node_id_ext(x, y);
            }
            x.get() == y.get()
        },
        (None, None) => true,
        _ => false,
    }
}

/// What a provider answer means: a failure, a cancellation, or a saved identity and text.
pub enum Acceptance {
    /// The answer is refused (see `rejection`).
    Rejected,
    /// The user cancelled.
    Cancelled,
    /// The saved identity and text.
    Saved(EditTarget, Seq<char>),
}

/// How an answer to a request with the given identity is judged: the provider's failure, a
/// changed identity and a text that is not XML are refused; a cancel cancels; otherwise
/// the saved identity and text are taken.
pub open spec fn acceptance(request: EditTarget, outcome: Result<EditorOutcome, EditorError>) -> Acceptance {
    match outcome {
        Err(_) => Acceptance::Rejected,
        Ok(EditorOutcome::Cancel) => Acceptance::Cancelled,
        Ok(EditorOutcome::Save(edit)) => if !identity_kept(request, edit.target) || !valid_xml(edit.edited_text@) {
            Acceptance::Rejected
        } else {
            Acceptance::Saved(edit.target, edit.edited_text@)
        },
    }
}

/// The error that refuses an answer: the provider's failure with its message as cause, a
/// changed identity, or the text's XML error.
pub open spec fn rejection(request: EditTarget, outcome: Result<EditorOutcome, EditorError>, d: Diagnostic) -> bool {
    match outcome {
        Err(e) => d.code@ == "E_EDITOR"@ && d.category == DiagnosticCategory::External && d.message@
            == "text provider failed"@ && d.details.causes@.len() == 1 && d.details.causes@[0]@ == editor_message(e)
            && d.details.hints@.len() == 0,
        Ok(EditorOutcome::Save(edit)) => if !identity_kept(request, edit.target) {
            plain_error(d, "E_EDITOR_TARGET"@, DiagnosticCategory::External, "text provider changed the edit identity"@)
        } else {
            d.code@ == "E_INVALID_XML_TEXT"@ && d.category == DiagnosticCategory::Domain
        },
        Ok(EditorOutcome::Cancel) => false,
    }
}

/// What one provider answer means for the statement being prepared: the provider's
/// failure, a cancellation of the whole invocation (`None`), or the saved identity and
/// validated text (see `acceptance` and `rejection`).
pub fn accept_edit(request: &EditRequest, outcome: Result<EditorOutcome, EditorError>) -> (r: Result<Option<(EditTarget, XmlText)>, Diagnostic>)
    ensures
        match acceptance(request.target, outcome) {
            Acceptance::Rejected => r matches Err(d) && rejection(request.target, outcome, d),
            Acceptance::Cancelled => r matches Ok(None),
            Acceptance::Saved(t, x) => r matches Ok(Some((t2, x2))) && t2 == t && x2@ == x,
        },
{
    match outcome {
        Err(error) => {
            let cause = error.message();
            Err(Diagnostic::error("E_EDITOR", DiagnosticCategory::External, "text provider failed").with_cause(cause.as_str()))
        },
        Ok(EditorOutcome::Cancel) => Ok(None),
        Ok(EditorOutcome::Save(edit)) => {
            let shape_ok = edit.target.node_id.is_some() == edit.target.base_revision.is_some();
            if !shape_ok || !same_node(edit.target.node_id, request.target.node_id) {
                return Err(Diagnostic::error(
                    "E_EDITOR_TARGET",
                    DiagnosticCategory::External,
                    "text provider changed the edit identity",
                ));
            }
            match XmlText::new(edit.edited_text.as_str()) {
                Ok(text) => Ok(Some((edit.target, text))),
                Err(error) => Err(domain_diagnostic(error)),
            }
        },
    }
}

/// The symbols of the FRAGMENT statements of a program, in order.
pub open spec fn upsert_targets(ops: Seq<Op>) -> Seq<Seq<char>>
    decreases ops.len(),
{
    if ops.len() == 0 {
        Seq::empty()
    } else {
        let rest = upsert_targets(ops.drop_last());
        match ops.last() {
            Op::UpsertFragment { target, .. } => rest.push(target@),
            _ => rest,
        }
    }
}

/// A staging as a function from symbols to what is staged.
pub type Stage = spec_fn(Seq<char>) -> Staged;

/// A staging with one symbol set.
pub open spec fn stage_set(st: Stage, k: Seq<char>, v: Staged) -> Stage {
    |x: Seq<char>| if x == k { v } else { st(x) }
}

/// A staging after a rename: what was staged for the old symbol moves to the new one.
pub open spec fn stage_rename(st: Stage, from: Seq<char>, to: Seq<char>) -> Stage {
    if st(from) is None {
        st
    } else {
        |x: Seq<char>| if x == to { st(from) } else if x == from { None } else { st(x) }
    }
}

/// The request for what is staged: its identity and draft, or a new empty fragment.
pub open spec fn request_of(v: Staged) -> (EditTarget, Seq<char>) {
    match v {
        Some((t, s)) => (t, s),
        None => (EditTarget { node_id: None, base_revision: None }, Seq::empty()),
    }
}

/// How preparation ends: prepared fragments (symbol, identity, text), a cancellation, or a
/// refused answer (the identity asked for and the answer).
pub enum Preparation {
    /// Every FRAGMENT statement was prepared.
    Prepared(Seq<(Seq<char>, EditTarget, Seq<char>)>),
    /// The user cancelled.
    Cancelled,
    /// An answer was refused.
    Refused(EditTarget, Result<EditorOutcome, EditorError>),
}

/// Preparation of statements over a staging, given the provider's answers in order: the
/// requests made, and how it ends. A FRAGMENT statement asks for what is staged for its
/// symbol and takes the next answer (see `acceptance`); a saved text is staged for the
/// symbol; RENAME moves a staged draft and DELETE drops it.
pub open spec fn preparation(ops: Seq<Op>, st: Stage, outcomes: Seq<Result<EditorOutcome, EditorError>>) -> (
    Seq<(EditTarget, Seq<char>)>,
    Preparation,
)
    decreases ops.len(),
{
    if ops.len() == 0 {
        (Seq::empty(), Preparation::Prepared(Seq::empty()))
    } else {
        match ops[0] {
            Op::UpsertFragment { target, .. } => {
                let req = request_of(st(target@));
                if outcomes.len() == 0 {
                    (seq![req], Preparation::Cancelled)
                } else {
                    match acceptance(req.0, outcomes[0]) {
                        Acceptance::Rejected => (seq![req], Preparation::Refused(req.0, outcomes[0])),
                        Acceptance::Cancelled => (seq![req], Preparation::Cancelled),
                        Acceptance::Saved(t, x) => {
                            let rest = preparation(ops.drop_first(), stage_set(st, target@, Some((t, x))), outcomes.drop_first());
                            (
                                seq![req] + rest.0,
                                match rest.1 {
                                    Preparation::Prepared(v) => Preparation::Prepared(seq![(target@, t, x)] + v),
                                    other => other,
                                },
                            )
                        },
                    }
                }
            },
            Op::Rename { target, new_symbol } => preparation(ops.drop_first(), stage_rename(st, target@, new_symbol@), outcomes),
            Op::Delete { target } => preparation(ops.drop_first(), stage_set(st, target@, None), outcomes),
            _ => preparation(ops.drop_first(), st, outcomes),
        }
    }
}

/// The answers' outcomes.
pub open spec fn outcomes_of(answers: Seq<Answer>) -> Seq<Result<EditorOutcome, EditorError>> {
    answers.map_values(|a: Answer| a.1)
}

/// A prepared fragment as values.
pub open spec fn prepared_view(p: PreparedFragment) -> (Seq<char>, EditTarget, Seq<char>) {
    (p.target@, p.edit_target, p.text@)
}

/// `r` is how a preparation ends.
pub open spec fn ends_as(end: Preparation, r: Result<Option<Vec<PreparedFragment>>, Diagnostic>) -> bool {
    match end {
        Preparation::Prepared(v) => r matches Ok(Some(w)) && w@.map_values(|p: PreparedFragment| prepared_view(p)) == v,
        Preparation::Cancelled => r matches Ok(None),
        Preparation::Refused(t, o) => r matches Err(d) && rejection(t, o, d),
    }
}

/// The provider answered exactly the requests of the preparation (see `preparation`), after
/// the answers it had already given, and `r` is how the preparation ends.
pub open spec fn prepared_through(
    ops: Seq<Op>,
    st: Stage,
    before: Seq<Answer>,
    after: Seq<Answer>,
    r: Result<Option<Vec<PreparedFragment>>, Diagnostic>,
) -> bool {
    let new = after.skip(before.len() as int);
    let (asked, end) = preparation(ops, st, outcomes_of(new));
    &&& before.len() <= after.len()
    &&& after.take(before.len() as int) == before
    &&& asked.len() == new.len()
    &&& forall|j: int| 0 <= j < new.len() ==> (#[trigger] new[j]).0.target == asked[j].0 && new[j].0.original_text@ == asked[j].1
    &&& ends_as(end, r)
}

/// The FRAGMENT targets of a program, read from its first statement.
proof fn lemma_upsert_targets_front(ops: Seq<Op>)
    requires
        ops.len() > 0,
    ensures
        upsert_targets(ops) == (match ops[0] {
            Op::UpsertFragment { target, .. } => seq![target@],
            _ => Seq::<Seq<char>>::empty(),
        }) + upsert_targets(ops.drop_first()),
    decreases ops.len(),
{
    let head = match ops[0] {
        Op::UpsertFragment { target, .. } => seq![target@],
        _ => Seq::<Seq<char>>::empty(),
    };
    if ops.len() == 1 {
        assert(ops.drop_last() =~= Seq::<Op>::empty());
        assert(ops.drop_first() =~= Seq::<Op>::empty());
        assert(upsert_targets(ops.drop_last()) =~= Seq::<Seq<char>>::empty());
        assert(upsert_targets(ops.drop_first()) =~= Seq::<Seq<char>>::empty());
        assert(ops.last() == ops[0]);
        assert(upsert_targets(ops) =~= head);
        assert(head + Seq::<Seq<char>>::empty() =~= head);
    } else {
        lemma_upsert_targets_front(ops.drop_last());
        assert(ops.drop_last()[0] == ops[0]);
        assert(ops.drop_last().drop_first() =~= ops.drop_first().drop_last());
        assert(ops.drop_first().last() == ops.last());
        match ops.last() {
            Op::UpsertFragment { target, .. } => {
                assert((head + upsert_targets(ops.drop_first().drop_last())).push(target@) =~= head + upsert_targets(
                    ops.drop_first().drop_last(),
                ).push(target@));
            },
            _ => {},
        }
    }
}

/// A preparation that ends with prepared fragments prepares one per FRAGMENT statement, in
/// order.
proof fn lemma_prepared_targets(ops: Seq<Op>, st: Stage, outcomes: Seq<Result<EditorOutcome, EditorError>>)
    ensures
        preparation(ops, st, outcomes).1 matches Preparation::Prepared(v) ==> v.len() == upsert_targets(ops).len() && forall|j: int|
            0 <= j < v.len() ==> (#[trigger] v[j]).0 == upsert_targets(ops)[j],
    decreases ops.len(),
{
    if ops.len() == 0 {
        assert(upsert_targets(ops) =~= Seq::<Seq<char>>::empty());
    } else {
        lemma_upsert_targets_front(ops);
        match ops[0] {
            Op::UpsertFragment { target, .. } => {
                let req = request_of(st(target@));
                if outcomes.len() > 0 {
                    match acceptance(req.0, outcomes[0]) {
                        Acceptance::Saved(t, x) => {
                            lemma_prepared_targets(ops.drop_first(), stage_set(st, target@, Some((t, x))), outcomes.drop_first());
                        },
                        _ => {},
                    }
                }
            },
            Op::Rename { target, new_symbol } => {
                lemma_prepared_targets(ops.drop_first(), stage_rename(st, target@, new_symbol@), outcomes);
            },
            Op::Delete { target } => {
                lemma_prepared_targets(ops.drop_first(), stage_set(st, target@, None), outcomes);
            },
            _ => {
                lemma_prepared_targets(ops.drop_first(), st, outcomes);
            },
        }
    }
}

/// The staging a catalog starts from (see `initial_stage`).
pub open spec fn initial_staging(ns: Seq<crate::domain::Node>) -> Stage {
    |k: Seq<char>| initial_stage(ns, k)
}

/// Error codes that preparation may report.
pub open spec fn preparation_code(code: Seq<char>) -> bool {
    ||| code == "E_TEXT_PROVIDER"@
    ||| code == "E_EDITOR"@
    ||| code == "E_EDITOR_TARGET"@
    ||| code == "E_INVALID_XML_TEXT"@
}

/// Prepares, outside the write transaction, the text of every FRAGMENT statement.
///
/// Statements are taken in order over a staging of the catalog's fragments: a FRAGMENT
/// statement edits the draft staged for its symbol (see `FragmentStaging::request_for`)
/// and its answer is judged by `accept_edit`; a saved text is staged in turn; RENAME moves a
/// staged draft and DELETE drops it. `None` means that the user cancelled the invocation.
pub fn prepare_fragments<P: TextProvider>(
    program: &CheckedProgram,
    snapshot: &CatalogSnapshot,
    provider: Option<&mut P>,
) -> (r: Result<Option<Vec<PreparedFragment>>, Diagnostic>)
    ensures
        upsert_targets(program.ops@).len() == 0 ==> (r matches Ok(Some(v)) && v@.len() == 0),
        upsert_targets(program.ops@).len() > 0 && provider is None ==> (r matches Err(d) && plain_error(
            d,
            "E_TEXT_PROVIDER"@,
            DiagnosticCategory::External,
            "FRAGMENT requires a text provider"@,
        )),
        r matches Ok(Some(v)) ==> v@.len() == upsert_targets(program.ops@).len() && forall|j: int|
            0 <= j < v@.len() ==> (#[trigger] v@[j]).target@ == upsert_targets(program.ops@)[j],
        r matches Err(d) ==> preparation_code(d.code@),
        upsert_targets(program.ops@).len() == 0 ==> (provider matches Some(p) ==> *final(p) == *p),
        upsert_targets(program.ops@).len() > 0 ==> (provider matches Some(p) ==> prepared_through(
            program.ops@,
            initial_staging(snapshot.nodes()),
            p.answers(),
            final(p).answers(),
            r,
        )),
{
    let mut count: usize = 0;
    let mut i: usize = 0;
    while i < program.ops.len()
        invariant
            0 <= i <= program.ops@.len(),
            count == upsert_targets(program.ops@.take(i as int)).len(),
            count <= i,
        decreases program.ops@.len() - i,
    {
        proof {
            assert(program.ops@.take(i + 1).drop_last() =~= program.ops@.take(i as int));
        }
        match &program.ops[i] {
            Op::UpsertFragment { .. } => {
                count = count + 1;
            },
            _ => {},
        }
        i = i + 1;
    }
    proof {
        assert(program.ops@.take(program.ops@.len() as int) =~= program.ops@);
    }
    if count == 0 {
        return Ok(Some(Vec::new()));
    }
    let ghost had_provider = provider is Some;
    let editor = match provider {
        Some(p) => p,
        None => {
            return Err(Diagnostic::error(
                "E_TEXT_PROVIDER",
                DiagnosticCategory::External,
                "FRAGMENT requires a text provider",
            ));
        },
    };
    assert(had_provider == (provider is Some));
    let ghost old_answers = editor.answers();
    let mut staged = FragmentStaging::from_snapshot(snapshot);
    proof {
        assert(program.ops@.skip(0) =~= program.ops@);
        assert((|k: Seq<char>| staged.staged(k)) =~= initial_staging(snapshot.nodes()));
    }
    let r = prepare_from(program, 0, &mut staged, editor);
    proof {
        let new = editor.answers().skip(old_answers.len() as int);
        lemma_prepared_targets(program.ops@, initial_staging(snapshot.nodes()), outcomes_of(new));
        if r is Ok && r->Ok_0 is Some {
            let w = r->Ok_0->Some_0;
            assert forall|j: int| 0 <= j < w@.len() implies (#[trigger] w@[j]).target@ == upsert_targets(program.ops@)[j] by {
                assert(w@.map_values(|p: PreparedFragment| prepared_view(p))[j] == prepared_view(w@[j]));
            }
        }
    }
    r
}

/// Prepares the statements from the `i`-th on, over a staging (see `preparation`).
fn prepare_from<P: TextProvider>(
    program: &CheckedProgram,
    i: usize,
    staged: &mut FragmentStaging,
    editor: &mut P,
) -> (r: Result<Option<Vec<PreparedFragment>>, Diagnostic>)
    requires
        i <= program.ops@.len(),
    ensures
        prepared_through(
            program.ops@.skip(i as int),
            |k: Seq<char>| old(staged).staged(k),
            old(editor).answers(),
            final(editor).answers(),
            r,
        ),
    decreases program.ops@.len() - i,
{
    let ghost st: Stage = |k: Seq<char>| staged.staged(k);
    let ghost ops = program.ops@.skip(i as int);
    let ghost before = editor.answers();
    if i == program.ops.len() {
        proof {
            assert(ops =~= Seq::<Op>::empty());
            assert(before.skip(before.len() as int) =~= Seq::<Answer>::empty());
            assert(outcomes_of(Seq::<Answer>::empty()) =~= Seq::<Result<EditorOutcome, EditorError>>::empty());
            assert(before.take(before.len() as int) =~= before);
        }
        let none: Vec<PreparedFragment> = Vec::new();
        proof {
            assert(none@.map_values(|p: PreparedFragment| prepared_view(p)) =~= Seq::<(Seq<char>, EditTarget, Seq<char>)>::empty());
        }
        return Ok(Some(none));
    }
    proof {
        assert(ops[0] == program.ops@[i as int]);
        assert(ops.drop_first() =~= program.ops@.skip(i + 1));
    }
    match &program.ops[i] {
        Op::UpsertFragment { target, .. } => {
            let request = staged.request_for(target);
            let asked = staged.request_for(target);
            let ghost req = request_of(st(target@));
            let outcome = editor.edit(asked);
            let ghost o = outcome;
            let ghost middle = editor.answers();
            proof {
                assert(middle.skip(before.len() as int) =~= seq![(asked, o)]);
                assert(outcomes_of(seq![(asked, o)]) =~= seq![o]);
                assert(middle.take(before.len() as int) =~= before);
            }
            match accept_edit(&request, outcome) {
                Err(d) => {
                    return Err(d);
                },
                Ok(None) => {
                    return Ok(None);
                },
                Ok(Some((edit_target, text))) => {
                    let ghost x = text@;
                    staged.save(target.clone(), edit_target, text.as_str().to_owned());
                    proof {
                        assert((|k: Seq<char>| staged.staged(k)) =~= stage_set(st, target@, Some((edit_target, x))));
                    }
                    let rest = prepare_from(program, i + 1, staged, editor);
                    let ghost after = editor.answers();
                    proof {
                        let new = after.skip(before.len() as int);
                        let tail = after.skip(middle.len() as int);
                        assert(after.take(middle.len() as int) == middle);
                        assert(new =~= seq![(asked, o)] + tail);
                        assert(outcomes_of(new) =~= seq![o] + outcomes_of(tail));
                        assert(outcomes_of(new)[0] == o);
                        assert(outcomes_of(new).drop_first() =~= outcomes_of(tail));
                        assert(after.take(before.len() as int) =~= before) by {
                            assert(after.take(before.len() as int) =~= middle.take(before.len() as int));
                        }
                    }
                    let item = PreparedFragment { target: target.clone(), edit_target, text };
                    match rest {
                        Ok(Some(v)) => {
                            let mut w = v;
                            let ghost vv = w@;
                            w.insert(0, item);
                            proof {
                                assert(w@.map_values(|p: PreparedFragment| prepared_view(p)) =~= seq![(target@, edit_target, x)]
                                    + vv.map_values(|p: PreparedFragment| prepared_view(p)));
                            }
                            Ok(Some(w))
                        },
                        Ok(None) => Ok(None),
                        Err(d) => Err(d),
                    }
                },
            }
        },
        Op::Rename { target, new_symbol } => {
            staged.rename(target, new_symbol);
            proof {
                assert((|k: Seq<char>| staged.staged(k)) =~= stage_rename(st, target@, new_symbol@));
            }
            prepare_from(program, i + 1, staged, editor)
        },
        Op::Delete { target } => {
            staged.remove(target);
            proof {
                assert((|k: Seq<char>| staged.staged(k)) =~= stage_set(st, target@, None));
            }
            prepare_from(program, i + 1, staged, editor)
        },
        _ => {
            proof {
                assert((|k: Seq<char>| staged.staged(k)) =~= st);
            }
            prepare_from(program, i + 1, staged, editor)
        },
    }
}

} // verus!
