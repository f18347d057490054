//! Interpreting a program inside a write transaction, statement by statement, while keeping
//! track of the revision and metadata each symbol has reached.

use vstd::prelude::*;

use super::command::{CheckedProgram, Op};
use super::interpret::{interpret_query, query_succeeds, query_value};
use super::ports::{revision_number_of, CatalogWrite, ReadLog, WriteCall};
use super::runtime::{domain_diagnostic, internal_program_mismatch, mismatch_error, unknown_symbol, unknown_symbol_error};
use super::search::SearchSettings;
use super::value::Value;
use crate::diagnostic::{plain_error, Diagnostic, DiagnosticCategory};
use crate::domain::catalog::{holds_node, lists_node};
use crate::domain::metadata::{blank, normalized_description, opt_view, tag_set, tag_texts};
use crate::domain::{CatalogSnapshot, DomainError, Metadata, Node, Revision, Symbol, Tag};

verus! {

/// What the transaction knows of a symbol: revision number, description and tag texts.
pub type NodeState = (nat, Option<Seq<char>>, Seq<Seq<char>>);

/// The state of a metadata value.
pub open spec fn metadata_state(m: Metadata) -> (Option<Seq<char>>, Seq<Seq<char>>) {
    (m.description_view(), tag_texts(m.tag_seq()))
}

struct StateEntry {
    symbol: Symbol,
    value: Option<(Revision, Metadata)>,
}

spec fn entry_state(e: StateEntry) -> Option<NodeState> {
    match e.value {
        Some((r, m)) => Some((r.number() as nat, m.description_view(), tag_texts(m.tag_seq()))),
        None => None,
    }
}

spec fn lookup_upto(es: Seq<StateEntry>, k: Seq<char>, i: int) -> Option<NodeState>
    decreases i,
{
    if i <= 0 {
        None
    } else if es[i - 1].symbol@ == k {
        entry_state(es[i - 1])
    } else {
        lookup_upto(es, k, i - 1)
    }
}

proof fn lemma_lookup_push(es: Seq<StateEntry>, x: StateEntry, k: Seq<char>, i: int)
    requires
        0 <= i <= es.len(),
    ensures
        lookup_upto(es.push(x), k, i) == lookup_upto(es, k, i),
    decreases i,
{
    if i > 0 {
        assert(es.push(x)[i - 1] == es[i - 1]);
        lemma_lookup_push(es, x, k, i - 1);
    }
}

/// The state each node of a catalog starts from.
pub open spec fn initial_state(ns: Seq<Node>, k: Seq<char>) -> Option<NodeState> {
    if exists|i: int| 0 <= i < ns.len() && (#[trigger] ns[i]).header.symbol@ == k {
        let i = choose|i: int| 0 <= i < ns.len() && (#[trigger] ns[i]).header.symbol@ == k;
        Some((ns[i].header.revision.number() as nat, ns[i].header.metadata.description_view(), tag_texts(ns[i].header.metadata.tag_seq())))
    } else {
        None
    }
}

/// A state whose revision grew by one.
pub open spec fn bumped(st: NodeState) -> NodeState {
    (st.0 + 1, st.1, st.2)
}

/// The revision number of a state.
pub open spec fn revision_number(st: NodeState) -> nat {
    st.0
}

/// The error for a revision that cannot grow.
pub open spec fn overflow_error(d: Diagnostic) -> bool {
    plain_error(d, "E_REVISION_OVERFLOW"@, DiagnosticCategory::Domain, "node revision overflow"@)
}

/// The revision and metadata each symbol reaches during a transaction.
pub struct TransactionState {
    entries: Vec<StateEntry>,
}

impl TransactionState {
    /// What is known of a symbol.
    pub closed spec fn state(&self, k: Seq<char>) -> Option<NodeState> {
        lookup_upto(self.entries@, k, self.entries@.len() as int)
    }

    fn set(&mut self, symbol: Symbol, value: Option<(Revision, Metadata)>)
        ensures
            forall|k: Seq<char>| #[trigger] final(self).state(k) == if k == symbol@ {
                match value {
                    Some((r, m)) => Some((r.number() as nat, m.description_view(), tag_texts(m.tag_seq()))),
                    None => None,
                }
            } else {
                old(self).state(k)
            },
    {
        let ghost before = self.entries@;
        self.entries.push(StateEntry { symbol, value });
        proof {
            assert forall|k: Seq<char>| k != symbol@ implies #[trigger] self.state(k) == lookup_upto(before, k, before.len() as int) by {
                lemma_lookup_push(before, self.entries@.last(), k, before.len() as int);
            }
        }
    }

    fn lookup(&self, symbol: &Symbol) -> (r: Option<(Revision, Metadata)>)
        ensures
            self.state(symbol@) == match r {
                Some((rv, m)) => Some((rv.number() as nat, m.description_view(), tag_texts(m.tag_seq()))),
                None => None,
            },
    {
        let mut i: usize = self.entries.len();
        while i > 0
            invariant
                0 <= i <= self.entries@.len(),
                self.state(symbol@) == lookup_upto(self.entries@, symbol@, i as int),
            decreases i,
        {
            let entry = &self.entries[i - 1];
            match crate::order::text_order(entry.symbol.as_str(), symbol.as_str()) {
                crate::order::Precedence::Same => {
                    return match &entry.value {
                        Some((rv, m)) => Some((*rv, m.clone())),
                        None => None,
                    };
                },
                _ => {},
            }
            i = i - 1;
        }
        None
    }

    /// The state every node of a catalog starts from.
    pub fn from_snapshot(snapshot: &CatalogSnapshot) -> (t: Self)
        ensures
            forall|k: Seq<char>| #[trigger] t.state(k) == initial_state(snapshot.nodes(), k),
    {
        let nodes = snapshot.iter_by_symbol();
        let ghost ns = snapshot.nodes();
        let mut table = TransactionState { entries: Vec::new() };
        let mut p: usize = 0;
        while p < nodes.len()
            invariant
                ns == snapshot.nodes(),
                crate::domain::catalog::unique_symbols(ns),
                0 <= p <= nodes@.len(),
                nodes@.len() == ns.len(),
                forall|q: int| 0 <= q < nodes@.len() ==> #[trigger] holds_node(ns, *nodes@[q]),
                forall|i: int| 0 <= i < ns.len() ==> #[trigger] lists_node(nodes@, ns[i]),
                forall|k: Seq<char>| #[trigger] table.state(k) == if exists|q: int| 0 <= q < p && (#[trigger] nodes@[q]).header.symbol@ == k {
                    initial_state(ns, k)
                } else {
                    None
                },
            decreases nodes@.len() - p,
        {
            let node = nodes[p];
            let ghost sym = node.header.symbol@;
            proof {
                assert(holds_node(ns, *nodes@[p as int]));
                let i = choose|i: int| 0 <= i < ns.len() && ns[i] == *node;
                let w = choose|w: int| 0 <= w < ns.len() && (#[trigger] ns[w]).header.symbol@ == sym;
                assert(w == i);
            }
            table.set(node.header.symbol.clone(), Some((node.header.revision, node.header.metadata.clone())));
            proof {
                assert forall|k: Seq<char>| #[trigger] table.state(k) == if exists|q: int| 0 <= q < p + 1 && (#[trigger] nodes@[q]).header.symbol@ == k {
                    initial_state(ns, k)
                } else {
                    None
                } by {
                    if k != sym {
                        if exists|q: int| 0 <= q < p + 1 && (#[trigger] nodes@[q]).header.symbol@ == k {
                            let q = choose|q: int| 0 <= q < p + 1 && (#[trigger] nodes@[q]).header.symbol@ == k;
                            assert(q < p);
                        }
                    } else {
                        assert(nodes@[p as int].header.symbol@ == k);
                    }
                }
            }
            p = p + 1;
        }
        proof {
            assert forall|k: Seq<char>| #[trigger] table.state(k) == initial_state(ns, k) by {
                if !exists|q: int| 0 <= q < p && (#[trigger] nodes@[q]).header.symbol@ == k {
                    if exists|i: int| 0 <= i < ns.len() && (#[trigger] ns[i]).header.symbol@ == k {
                        let i = choose|i: int| 0 <= i < ns.len() && (#[trigger] ns[i]).header.symbol@ == k;
                        assert(lists_node(nodes@, ns[i]));
                        let q = choose|q: int| 0 <= q < nodes@.len() && *nodes@[q] == ns[i];
                        assert(nodes@[q].header.symbol@ == k);
                    }
                }
            }
        }
        table
    }

    /// The revision a symbol has reached, if it names a node.
    pub fn revision_of(&self, symbol: &Symbol) -> (r: Option<Revision>)
        ensures
            match self.state(symbol@) {
                Some(st) => r matches Some(rv) && rv.number() == st.0,
                None => r is None,
            },
    {
        match self.lookup(symbol) {
            Some((rv, _)) => Some(rv),
            None => None,
        }
    }

    /// A node was written: its revision grows by one, or it starts at revision 1 with empty
    /// metadata.
    pub fn advance(&mut self, symbol: &Symbol) -> (r: Result<(), Diagnostic>)
        ensures
            old(self).state(symbol@) matches Some(st) && st.0 >= u64::MAX ==> (r matches Err(d) && overflow_error(d)),
            !(old(self).state(symbol@) matches Some(st) && st.0 >= u64::MAX) ==> r is Ok && forall|k: Seq<char>|
                #[trigger] final(self).state(k) == if k == symbol@ {
                    match old(self).state(symbol@) {
                        Some(st) => Some(bumped(st)),
                        None => Some((1nat, None::<Seq<char>>, Seq::<Seq<char>>::empty())),
                    }
                } else {
                    old(self).state(k)
                },
    {
        match self.lookup(symbol) {
            Some((rv, m)) => match rv.checked_next() {
                Some(next) => {
                    self.set(symbol.clone(), Some((next, m)));
                    Ok(())
                },
                None => Err(Diagnostic::error("E_REVISION_OVERFLOW", DiagnosticCategory::Domain, "node revision overflow")),
            },
            None => {
                let first = match Revision::new(1) {
                    Ok(rv) => rv,
                    Err(e) => {
                        return Err(domain_diagnostic(e));
                    },
                };
                let m = Metadata::default();
                proof {
                    assert(tag_texts(m.tag_seq()) =~= Seq::<Seq<char>>::empty());
                }
                self.set(symbol.clone(), Some((first, m)));
                Ok(())
            },
        }
    }

    /// A node was renamed: it moves to the new symbol with its revision grown by one.
    pub fn rename(&mut self, target: &Symbol, new_symbol: &Symbol) -> (r: Result<(), Diagnostic>)
        ensures
            old(self).state(target@) is None ==> (r matches Err(d) && unknown_symbol_error(d, target@)),
            old(self).state(target@) matches Some(st) && st.0 >= u64::MAX ==> (r matches Err(d) && overflow_error(d)),
            old(self).state(target@) matches Some(st) && st.0 < u64::MAX ==> r is Ok && forall|k: Seq<char>|
                #[trigger] final(self).state(k) == if k == new_symbol@ {
                    Some(bumped(old(self).state(target@).unwrap()))
                } else if k == target@ {
                    None
                } else {
                    old(self).state(k)
                },
    {
        match self.lookup(target) {
            None => Err(unknown_symbol(target)),
            Some((rv, m)) => match rv.checked_next() {
                None => Err(Diagnostic::error("E_REVISION_OVERFLOW", DiagnosticCategory::Domain, "node revision overflow")),
                Some(next) => {
                    self.set(target.clone(), None);
                    self.set(new_symbol.clone(), Some((next, m)));
                    Ok(())
                },
            },
        }
    }

    /// A node was deleted.
    pub fn remove(&mut self, symbol: &Symbol)
        ensures
            forall|k: Seq<char>| #[trigger] final(self).state(k) == if k == symbol@ { None } else { old(self).state(k) },
    {
        self.set(symbol.clone(), None);
    }

    /// The metadata a node currently has.
    pub fn metadata_of(&self, symbol: &Symbol) -> (r: Result<Metadata, Diagnostic>)
        ensures
            self.state(symbol@) is None ==> (r matches Err(d) && unknown_symbol_error(d, symbol@)),
            self.state(symbol@) matches Some(st) ==> (r matches Ok(m) && m.description_view() == st.1 && tag_texts(m.tag_seq()) == st.2),
    {
        match self.lookup(symbol) {
            Some((_, m)) => Ok(m),
            None => Err(unknown_symbol(symbol)),
        }
    }

    /// A node's metadata was replaced: its revision grows by one.
    pub fn replace_metadata(&mut self, symbol: &Symbol, metadata: Metadata) -> (r: Result<(), Diagnostic>)
        ensures
            old(self).state(symbol@) is None ==> (r matches Err(d) && unknown_symbol_error(d, symbol@)),
            old(self).state(symbol@) matches Some(st) && st.0 >= u64::MAX ==> (r matches Err(d) && overflow_error(d)),
            old(self).state(symbol@) matches Some(st) && st.0 < u64::MAX ==> r is Ok && forall|k: Seq<char>|
                #[trigger] final(self).state(k) == if k == symbol@ {
                    Some((revision_number(old(self).state(symbol@).unwrap()) + 1, metadata.description_view(), tag_texts(metadata.tag_seq())))
                } else {
                    old(self).state(k)
                },
    {
        match self.lookup(symbol) {
            None => Err(unknown_symbol(symbol)),
            Some((rv, _)) => match rv.checked_next() {
                None => Err(Diagnostic::error("E_REVISION_OVERFLOW", DiagnosticCategory::Domain, "node revision overflow")),
                Some(next) => {
                    self.set(symbol.clone(), Some((next, metadata)));
                    Ok(())
                },
            },
        }
    }
}

/// Parses tag texts in order; the first blank one is an error.
pub fn parse_tags(tags: &Vec<String>) -> (r: Result<Vec<Tag>, Diagnostic>)
    ensures
        (forall|i: int| 0 <= i < tags@.len() ==> !blank(#[trigger] tags@[i]@)) ==> (r matches Ok(v) && v@.len() == tags@.len()
            && forall|i: int| 0 <= i < v@.len() ==> (#[trigger] v@[i])@ == tags@[i]@),
        !(forall|i: int| 0 <= i < tags@.len() ==> !blank(#[trigger] tags@[i]@)) ==> (r matches Err(d) && plain_error(
            d,
            "E_INVALID_TAG"@,
            DiagnosticCategory::Domain,
            crate::domain::error::domain_message(DomainError::EmptyTag),
        )),
{
    let mut out: Vec<Tag> = Vec::new();
    let mut i: usize = 0;
    while i < tags.len()
        invariant
            0 <= i <= tags@.len(),
            out@.len() == i,
            forall|k: int| 0 <= k < i ==> !blank(#[trigger] tags@[k]@),
            forall|k: int| 0 <= k < i ==> (#[trigger] out@[k])@ == tags@[k]@,
        decreases tags@.len() - i,
    {
        match Tag::new(tags[i].as_str()) {
            Ok(tag) => out.push(tag),
            Err(e) => {
                return Err(domain_diagnostic(e));
            },
        }
        i = i + 1;
    }
    Ok(out)
}

/// The texts of a list of strings, as a set.
pub open spec fn text_set(ts: Seq<String>) -> Set<Seq<char>> {
    Set::new(|x: Seq<char>| exists|i: int| 0 <= i < ts.len() && (#[trigger] ts[i])@ == x)
}

/// `v` is what statement `op` yields inside a transaction: nothing for a structural
/// change, the new metadata for a metadata change (with the description or the tags the
/// statement gives), and for a query its value on some state of the catalog.
pub open spec fn transaction_value(op: Op, settings: SearchSettings, v: Value) -> bool {
    match op {
        Op::UpsertFragment { .. } | Op::ReplacePrompt { .. } | Op::Rename { .. } | Op::Delete { .. } => v is Unit,
        Op::SetDescription { description, .. } => v matches Value::Metadata(m) && m.description_view()
            == normalized_description(opt_view(description)),
        Op::SetTags { tags, .. } => v matches Value::Metadata(m) && tag_set(m.tag_seq()) == text_set(tags@) && crate::domain::metadata::strictly_sorted(m.tag_seq()),
        _ => exists|ns: Seq<Node>| query_value(ns, op, settings, v),
    }
}

/// What a transaction knows of a symbol, with its tags as a set.
pub type Entry = (nat, Option<Seq<char>>, Set<Seq<char>>);

/// What a transaction knows of every symbol.
pub type Book = spec_fn(Seq<char>) -> Option<Entry>;

/// A state with its tags as a set.
pub open spec fn booked(st: Option<NodeState>) -> Option<Entry> {
    match st {
        Some(s) => Some((s.0, s.1, s.2.to_set())),
        None => None,
    }
}

/// The book a catalog starts from.
pub open spec fn initial_book(ns: Seq<Node>) -> Book {
    |k: Seq<char>| booked(initial_state(ns, k))
}

/// A book with one symbol set.
pub open spec fn book_set(b: Book, k: Seq<char>, v: Option<Entry>) -> Book {
    |x: Seq<char>| if x == k { v } else { b(x) }
}

/// A book after a node was written: its revision grows by one, or it starts at revision 1
/// with empty metadata; `None` when the revision cannot grow.
pub open spec fn book_advanced(b: Book, k: Seq<char>) -> Option<Book> {
    match b(k) {
        Some(e) => if e.0 >= u64::MAX {
            None
        } else {
            Some(book_set(b, k, Some((e.0 + 1, e.1, e.2))))
        },
        None => Some(book_set(b, k, Some((1nat, None, Set::empty())))),
    }
}

/// The writes of a program's statements, in order, when every write succeeds, and whether
/// the program then runs to its end: a statement that fails on its own (see
/// `statement_writes`) ends the writes.
pub open spec fn writes_of(ops: Seq<Op>, b: Book) -> (Seq<WriteCall>, bool)
    decreases ops.len(),
{
    if ops.len() == 0 {
        (Seq::empty(), true)
    } else {
        let (ws, next) = statement_writes(ops[0], b);
        match next {
            None => (ws, false),
            Some(b2) => (ws + writes_of(ops.drop_first(), b2).0, writes_of(ops.drop_first(), b2).1),
        }
    }
}

/// The tags of a sequence as a set are the set of their texts.
proof fn lemma_tag_set_texts(tags: Seq<Tag>)
    ensures
        tag_set(tags) == tag_texts(tags).to_set(),
{
    assert forall|x: Seq<char>| tag_set(tags).contains(x) <==> tag_texts(tags).to_set().contains(x) by {
        if tag_texts(tags).to_set().contains(x) {
            let i = choose|i: int| 0 <= i < tag_texts(tags).len() && tag_texts(tags)[i] == x;
            assert(tags[i]@ == x);
        }
        if tag_set(tags).contains(x) {
            let i = choose|i: int| 0 <= i < tags.len() && (#[trigger] tags[i])@ == x;
            assert(tag_texts(tags)[i] == x);
        }
    }
    assert(tag_set(tags) =~= tag_texts(tags).to_set());
}

/// Whether a list of tag texts holds a blank one.
pub open spec fn has_blank_tag(tags: Seq<String>) -> bool {
    exists|i: int| 0 <= i < tags.len() && blank(#[trigger] tags[i]@)
}

/// Runs every statement of a program in order inside a write transaction, buffering the
/// values.
///
/// Structural changes and metadata changes go to the transaction, with the revision each
/// fragment has reached for an upsert, and advance `TransactionState`; a query runs on the
/// transaction's current snapshot (see `interpret_query`). It fails only where the outcomes
/// of its calls on the transaction account for the failure (see `explains_failure`), and it
/// succeeds whenever those outcomes let every statement succeed (see `runs_through`).
pub fn interpret_transaction<W: CatalogWrite>(
    program: &CheckedProgram,
    transaction: &mut W,
    authoritative: &CatalogSnapshot,
    settings: SearchSettings,
) -> (r: Result<Vec<Value>, Diagnostic>)
    ensures
        r matches Ok(vs) ==> vs@.len() == program.ops@.len() && forall|i: int|
            0 <= i < vs@.len() ==> transaction_value(program.ops@[i], settings, #[trigger] vs@[i]),
        program.ops@.len() == 0 ==> (r matches Ok(vs) && vs@.len() == 0),
        program.ops@.len() > 0 && fails_alone(program.ops@[0], initial_book(authoritative.nodes()))
            ==> (r matches Err(d) && alone_error(program.ops@[0], d)),
        r is Ok ==> writes_of(program.ops@, initial_book(authoritative.nodes())).1 && final(transaction).writes()
            == old(transaction).writes() + writes_of(program.ops@, initial_book(authoritative.nodes())).0,
        r is Err ==> wrote_prefix(
            old(transaction).writes(),
            final(transaction).writes(),
            writes_of(program.ops@, initial_book(authoritative.nodes())).0,
        ),
        r is Err && query_free(program.ops@) && final(transaction).writes() == old(transaction).writes() + writes_of(
            program.ops@,
            initial_book(authoritative.nodes()),
        ).0 && all_succeeded(final(transaction).write_results().skip(old(transaction).write_results().len() as int))
            ==> (stop_rule(program.ops@, initial_book(authoritative.nodes())))(r->Err_0),
        old(transaction).reads().len() <= final(transaction).reads().len(),
        ({
            let xs = final(transaction).write_results().skip(old(transaction).write_results().len() as int);
            let ys = final(transaction).reads().skip(old(transaction).reads().len() as int);
            let b = initial_book(authoritative.nodes());
            &&& r matches Err(d) ==> explains_failure(program.ops@, b, xs, ys, settings, d)
            &&& runs_through(program.ops@, b, xs, ys, settings) ==> r is Ok
        }),
{
    let mut values: Vec<Value> = Vec::new();
    let mut state = TransactionState::from_snapshot(authoritative);
    let ghost all = writes_of(program.ops@, initial_book(authoritative.nodes()));
    let ghost start = transaction.writes();
    let ghost start_results = transaction.write_results();
    let ghost rule = stop_rule(program.ops@, initial_book(authoritative.nodes()));
    let ghost mut done: Seq<WriteCall> = Seq::empty();
    let ghost start_reads = transaction.reads();
    let ghost b0 = initial_book(authoritative.nodes());
    let ghost ops = program.ops@;
    let ghost mut xs_done: Seq<bool> = Seq::empty();
    let ghost mut ys_done: ReadLog = Seq::empty();
    proof {
        assert forall|xs: Seq<bool>, ys: ReadLog, d: Diagnostic| #[trigger] explains_failure(ops.skip(0), b0, xs, ys, settings, d)
            implies explains_failure(ops, b0, xs_done + xs, ys_done + ys, settings, d) by {
            assert(xs_done + xs =~= xs);
            assert(ys_done + ys =~= ys);
            assert(ops.skip(0) =~= ops);
        }
        assert forall|xs: Seq<bool>, ys: ReadLog| runs_through(ops, b0, xs_done + xs, ys_done + ys, settings)
            implies #[trigger] runs_through(ops.skip(0), b0, xs, ys, settings) by {
            assert(xs_done + xs =~= xs);
            assert(ys_done + ys =~= ys);
            assert(ops.skip(0) =~= ops);
        }
        assert(transaction.write_results() =~= start_results + xs_done);
        assert(transaction.reads() =~= start_reads + ys_done);
        assert(book_of(state) =~= initial_book(authoritative.nodes()));
        assert(program.ops@.skip(0) =~= program.ops@);
        assert(done + all.0 =~= all.0);
        assert(start + done =~= start);
    }
    let mut i: usize = 0;
    while i < program.ops.len()
        invariant
            0 <= i <= program.ops@.len(),
            values@.len() == i,
            forall|k: int| 0 <= k < i ==> transaction_value(program.ops@[k], settings, #[trigger] values@[k]),
            i == 0 ==> book_of(state) == initial_book(authoritative.nodes()),
            i > 0 ==> !fails_alone(program.ops@[0], initial_book(authoritative.nodes())),
            all == writes_of(program.ops@, initial_book(authoritative.nodes())),
            all.0 == done + writes_of(program.ops@.skip(i as int), book_of(state)).0,
            all.1 == writes_of(program.ops@.skip(i as int), book_of(state)).1,
            transaction.writes() == start + done,
            start == old(transaction).writes(),
            start_results == old(transaction).write_results(),
            start_results.len() <= transaction.write_results().len(),
            transaction.write_results().take(start_results.len() as int) == start_results,
            rule == stop_rule(program.ops@, initial_book(authoritative.nodes())),
            rule == stop_rule(program.ops@.skip(i as int), book_of(state)),
            ops == program.ops@,
            b0 == initial_book(authoritative.nodes()),
            start_reads == old(transaction).reads(),
            transaction.write_results() == start_results + xs_done,
            transaction.reads() == start_reads + ys_done,
            forall|xs: Seq<bool>, ys: ReadLog, d: Diagnostic| #[trigger] explains_failure(ops.skip(i as int), book_of(state), xs, ys, settings, d)
                ==> explains_failure(ops, b0, xs_done + xs, ys_done + ys, settings, d),
            forall|xs: Seq<bool>, ys: ReadLog| runs_through(ops, b0, xs_done + xs, ys_done + ys, settings)
                ==> #[trigger] runs_through(ops.skip(i as int), book_of(state), xs, ys, settings),
        decreases program.ops@.len() - i,
    {
        let ghost b = book_of(state);
        let ghost before = transaction.writes();
        let ghost before_results = transaction.write_results();
        let ghost before_reads = transaction.reads();
        proof {
            let rest = program.ops@.skip(i as int);
            assert(rest[0] == program.ops@[i as int]);
            assert(rest.drop_first() =~= program.ops@.skip(i + 1));
        }
        let value = match run_statement(&program.ops[i], transaction, &mut state, settings) {
            Ok(v) => v,
            Err(d) => {
                proof {
                    let ws = statement_writes(program.ops@[i as int], b).0;
                    let k = choose|k: int| 0 <= k <= ws.len() && transaction.writes() == before + ws.take(k);
                    assert(all.0 == done + ws + (all.0.skip(done.len() + ws.len() as int))) by {
                        let rest = program.ops@.skip(i as int);
                        match statement_writes(rest[0], b).1 {
                            Some(b2) => {
                                assert(all.0 =~= done + ws + writes_of(rest.drop_first(), b2).0);
                            },
                            None => {
                                assert(all.0 =~= done + ws);
                            },
                        }
                    }
                    assert(transaction.writes() =~= start + all.0.take(done.len() + k));
                    assert(0 <= done.len() + k <= all.0.len());
                    assert(wrote_prefix(start, transaction.writes(), all.0));
                    let rs = transaction.write_results();
                    assert(rs.take(before_results.len() as int) =~= before_results);
                    assert(rs.take(start_results.len() as int) =~= start_results) by {
                        assert(rs.take(start_results.len() as int) =~= before_results.take(start_results.len() as int));
                    }
                    let xs0 = rs.skip(before_results.len() as int);
                    let ys0 = transaction.reads().skip(before_reads.len() as int);
                    let rest = ops.skip(i as int);
                    assert(rest[0] == ops[i as int]);
                    assert(rs.take(before_results.len() as int) == before_results);
                    assert(rs =~= before_results + xs0);
                    assert(rs =~= start_results + (xs_done + xs0));
                    let rd = transaction.reads();
                    assert(rd.take(before_reads.len() as int) == before_reads);
                    assert(rd =~= before_reads + ys0);
                    assert(rd =~= start_reads + (ys_done + ys0));
                    assert(rs.skip(start_results.len() as int) =~= xs_done + xs0);
                    assert(transaction.reads().skip(start_reads.len() as int) =~= ys_done + ys0);
                    lemma_failure_at_head(rest, b, xs0, ys0, settings, d);
                    assert(explains_failure(rest, b, xs0, ys0, settings, d));
                    if runs_through(ops, b0, xs_done + xs0, ys_done + ys0, settings) {
                        assert(runs_through(rest, b, xs0, ys0, settings));
                        lemma_runs_at_head(rest, b, xs0, ys0, settings);
                    }
                    if query_free(program.ops@) && transaction.writes() == start + all.0 && all_succeeded(
                        rs.skip(start_results.len() as int),
                    ) {
                        let rest = program.ops@.skip(i as int);
                        assert(!is_query(program.ops@[i as int]));
                        assert(transaction.writes() == before + ws) by {
                            assert((start + all.0).len() == (before + ws.take(k)).len());
                            assert(ws.take(k) =~= ws);
                        }
                        assert forall|q: int| 0 <= q < rs.skip(before_results.len() as int).len() implies #[trigger] rs.skip(
                            before_results.len() as int,
                        )[q] by {
                            assert(rs.skip(before_results.len() as int)[q] == rs.skip(start_results.len() as int)[q
                                + before_results.len() - start_results.len()]);
                        }
                        assert(rule(d));
                    }
                }
                return Err(d);
            },
        };
        proof {
            let rest = program.ops@.skip(i as int);
            let (ws, next) = statement_writes(rest[0], b);
            let b2 = next->0;
            assert(transaction.write_results().take(start_results.len() as int) =~= start_results) by {
                assert(transaction.write_results().take(start_results.len() as int) =~= transaction.write_results().take(
                    before_results.len() as int,
                ).take(start_results.len() as int));
            }
            done = done + ws;
            assert(all.0 =~= done + writes_of(program.ops@.skip(i + 1), book_of(state)).0);
            assert(transaction.writes() =~= start + done);
            let xs0 = transaction.write_results().skip(before_results.len() as int);
            let ys0 = transaction.reads().skip(before_reads.len() as int);
            let b2 = book_of(state);
            let old_xs = xs_done;
            let old_ys = ys_done;
            assert(transaction.write_results().take(before_results.len() as int) == before_results);
            assert(transaction.write_results() =~= before_results + xs0);
            assert(transaction.reads().take(before_reads.len() as int) == before_reads);
            assert(transaction.reads() =~= before_reads + ys0);
            assert(rest.drop_first() =~= ops.skip(i + 1));
            assert forall|xs: Seq<bool>, ys: ReadLog, d: Diagnostic| #[trigger] explains_failure(ops.skip(i + 1), b2, xs, ys, settings, d)
                implies explains_failure(ops, b0, (old_xs + xs0) + xs, (old_ys + ys0) + ys, settings, d) by {
                lemma_past_head(rest, b, b2, xs0, ys0, xs, ys, settings, d);
                assert(explains_failure(rest, b, xs0 + xs, ys0 + ys, settings, d));
                assert((old_xs + xs0) + xs =~= old_xs + (xs0 + xs));
                assert((old_ys + ys0) + ys =~= old_ys + (ys0 + ys));
            }
            assert forall|xs: Seq<bool>, ys: ReadLog| runs_through(ops, b0, (old_xs + xs0) + xs, (old_ys + ys0) + ys, settings)
                implies #[trigger] runs_through(ops.skip(i + 1), b2, xs, ys, settings) by {
                assert((old_xs + xs0) + xs =~= old_xs + (xs0 + xs));
                assert((old_ys + ys0) + ys =~= old_ys + (ys0 + ys));
                assert(runs_through(rest, b, xs0 + xs, ys0 + ys, settings));
                lemma_past_head(rest, b, b2, xs0, ys0, xs, ys, settings, arbitrary());
            }
            xs_done = old_xs + xs0;
            ys_done = old_ys + ys0;
        }
        values.push(value);
        i = i + 1;
    }
    proof {
        assert(program.ops@.skip(i as int) =~= Seq::<Op>::empty());
        assert(done + Seq::<WriteCall>::empty() =~= done);
        assert(transaction.write_results().skip(start_results.len() as int) =~= xs_done);
    }
    Ok(values)
}

/// What one statement writes when its writes succeed, and the book after it; `None` when it
/// fails on its own (missing text, blank tag, unknown node, revision overflow). A query
/// writes nothing.
pub open spec fn statement_writes(op: Op, b: Book) -> (Seq<WriteCall>, Option<Book>) {
    match op {
        Op::UpsertFragment { target, text, .. } => match text {
            None => (Seq::empty(), None),
            Some(t) => (
                seq![
                    WriteCall::UpsertFragment {
                        target: target@,
                        text: t@,
                        expected: match b(target@) {
                            Some(e) => Some(e.0 as u64),
                            None => None,
                        },
                    },
                ],
                book_advanced(b, target@),
            ),
        },
        Op::ReplacePrompt { target, children } => (
            seq![WriteCall::ReplacePrompt { target: target@, children: children@.map_values(|c: Symbol| c@) }],
            book_advanced(b, target@),
        ),
        Op::Rename { target, new_symbol } => (
            seq![WriteCall::Rename { target: target@, new_symbol: new_symbol@ }],
            match b(target@) {
                None => None,
                Some(e) => if e.0 >= u64::MAX {
                    None
                } else {
                    Some(book_set(book_set(b, target@, None), new_symbol@, Some((e.0 + 1, e.1, e.2))))
                },
            },
        ),
        Op::Delete { target } => (seq![WriteCall::Delete { target: target@ }], Some(book_set(b, target@, None))),
        Op::SetDescription { target, description } => match b(target@) {
            None => (Seq::empty(), None),
            Some(e) => {
                let d = normalized_description(opt_view(description));
                (
                    seq![WriteCall::SetMetadata { target: target@, description: d, tags: e.2 }],
                    if e.0 >= u64::MAX {
                        None
                    } else {
                        Some(book_set(b, target@, Some((e.0 + 1, d, e.2))))
                    },
                )
            },
        },
        Op::SetTags { target, tags } => if has_blank_tag(tags@) {
            (Seq::empty(), None)
        } else {
            match b(target@) {
                None => (Seq::empty(), None),
                Some(e) => (
                    seq![WriteCall::SetMetadata { target: target@, description: e.1, tags: text_set(tags@) }],
                    if e.0 >= u64::MAX {
                        None
                    } else {
                        Some(book_set(b, target@, Some((e.0 + 1, e.1, text_set(tags@)))))
                    },
                ),
            }
        },
        _ => (Seq::empty(), Some(b)),
    }
}

/// The book of a transaction state.
pub open spec fn book_of(state: TransactionState) -> Book {
    |k: Seq<char>| booked(state.state(k))
}

/// `now` is `start` followed by a prefix of `ws`.
pub open spec fn wrote_prefix(start: Seq<WriteCall>, now: Seq<WriteCall>, ws: Seq<WriteCall>) -> bool {
    exists|k: int| 0 <= k <= ws.len() && now == start + ws.take(k)
}

/// Whether a statement fails on its own before anything reaches the transaction.
pub open spec fn fails_alone(op: Op, b: Book) -> bool {
    match op {
        Op::UpsertFragment { text, .. } => text is None,
        Op::SetTags { target, tags } => has_blank_tag(tags@) || b(target@) is None,
        Op::SetDescription { target, .. } => b(target@) is None,
        _ => false,
    }
}

/// The error of a statement that fails on its own (see `fails_alone`).
pub open spec fn alone_error(op: Op, d: Diagnostic) -> bool {
    match op {
        Op::UpsertFragment { .. } => mismatch_error(d),
        Op::SetTags { target, tags } => if has_blank_tag(tags@) {
            plain_error(d, "E_INVALID_TAG"@, DiagnosticCategory::Domain, crate::domain::error::domain_message(DomainError::EmptyTag))
        } else {
            unknown_symbol_error(d, target@)
        },
        Op::SetDescription { target, .. } => unknown_symbol_error(d, target@),
        _ => false,
    }
}

/// Whether a statement is a query (it writes nothing and reads the transaction's catalog).
pub open spec fn is_query(op: Op) -> bool {
    !(op is UpsertFragment || op is ReplacePrompt || op is Rename || op is Delete || op is SetDescription || op is SetTags)
}

/// Whether a program has no query.
pub open spec fn query_free(ops: Seq<Op>) -> bool {
    forall|i: int| 0 <= i < ops.len() ==> !is_query(#[trigger] ops[i])
}

/// Whether every write succeeded.
pub open spec fn all_succeeded(results: Seq<bool>) -> bool {
    forall|i: int| 0 <= i < results.len() ==> #[trigger] results[i]
}

/// The error of a statement that fails on its own once its writes succeeded (see
/// `statement_writes`): its own error (see `alone_error`), an unknown node for a rename, or
/// a revision that cannot grow.
pub open spec fn stop_error(op: Op, b: Book, d: Diagnostic) -> bool {
    if fails_alone(op, b) {
        alone_error(op, d)
    } else {
        match op {
            Op::Rename { target, .. } => if b(target@) is None {
                unknown_symbol_error(d, target@)
            } else {
                overflow_error(d)
            },
            _ => overflow_error(d),
        }
    }
}

/// The error of the first statement of a program that fails on its own, when every write
/// before it succeeds (see `writes_of`); none when no statement does.
pub open spec fn stop_rule(ops: Seq<Op>, b: Book) -> spec_fn(Diagnostic) -> bool
    decreases ops.len(),
{
    if ops.len() == 0 {
        |d: Diagnostic| false
    } else {
        match statement_writes(ops[0], b).1 {
            None => |d: Diagnostic| stop_error(ops[0], b, d),
            Some(b2) => stop_rule(ops.drop_first(), b2),
        }
    }
}

/// Whether the outcomes of a run's outside calls account for its failure with `d`: going
/// through the statements in order with the book they reach, a write that failed or a read of
/// the catalog that failed, a query that does not succeed on the catalog read for it (see
/// `query_succeeds`), or a statement that fails on its own once its writes succeeded, with
/// its error (see `stop_error`). `writes` holds whether each write succeeded and `reads` what
/// each read gave, oldest first.
pub open spec fn explains_failure(
    ops: Seq<Op>,
    b: Book,
    writes: Seq<bool>,
    reads: ReadLog,
    settings: SearchSettings,
    d: Diagnostic,
) -> bool
    decreases ops.len(),
{
    if ops.len() == 0 {
        false
    } else if is_query(ops[0]) {
        reads.len() > 0 && match reads[0] {
            None => true,
            Some(ns) => !query_succeeds(ns, ops[0], settings) || explains_failure(
                ops.drop_first(),
                b,
                writes,
                reads.drop_first(),
                settings,
                d,
            ),
        }
    } else {
        let (ws, next) = statement_writes(ops[0], b);
        if ws.len() == 0 {
            match next {
                None => stop_error(ops[0], b, d),
                Some(b2) => explains_failure(ops.drop_first(), b2, writes, reads, settings, d),
            }
        } else {
            writes.len() > 0 && (!writes[0] || match next {
                None => stop_error(ops[0], b, d),
                Some(b2) => explains_failure(ops.drop_first(), b2, writes.drop_first(), reads, settings, d),
            })
        }
    }
}

/// Whether the outcomes of a run's outside calls let every statement succeed: every write
/// succeeds, every read of the catalog succeeds and every query succeeds on the catalog read
/// for it, and no statement fails on its own (see `statement_writes`).
pub open spec fn runs_through(ops: Seq<Op>, b: Book, writes: Seq<bool>, reads: ReadLog, settings: SearchSettings) -> bool
    decreases ops.len(),
{
    if ops.len() == 0 {
        true
    } else if is_query(ops[0]) {
        reads.len() > 0 && match reads[0] {
            None => false,
            Some(ns) => query_succeeds(ns, ops[0], settings) && runs_through(ops.drop_first(), b, writes, reads.drop_first(), settings),
        }
    } else {
        let (ws, next) = statement_writes(ops[0], b);
        match next {
            None => false,
            Some(b2) => (ws.len() > 0 ==> writes.len() > 0 && writes[0]) && runs_through(
                ops.drop_first(),
                b2,
                writes.skip(ws.len() as int),
                reads,
                settings,
            ),
        }
    }
}

/// A statement that fails on its own, or whose outside calls account for its failure,
/// accounts for the failure of a program it starts.
proof fn lemma_failure_at_head(ops: Seq<Op>, b: Book, xs: Seq<bool>, ys: ReadLog, settings: SearchSettings, d: Diagnostic)
    requires
        ops.len() > 0,
        explains_failure(seq![ops[0]], b, xs, ys, settings, d),
    ensures
        explains_failure(ops, b, xs, ys, settings, d),
{
    let one = seq![ops[0]];
    assert(one[0] == ops[0]);
    assert(one.drop_first() =~= Seq::<Op>::empty());
    reveal_with_fuel(explains_failure, 2);
}

/// A program whose outside calls let every statement succeed lets its first statement
/// succeed.
proof fn lemma_runs_at_head(ops: Seq<Op>, b: Book, xs: Seq<bool>, ys: ReadLog, settings: SearchSettings)
    requires
        ops.len() > 0,
        runs_through(ops, b, xs, ys, settings),
    ensures
        runs_through(seq![ops[0]], b, xs, ys, settings),
{
    let one = seq![ops[0]];
    assert(one[0] == ops[0]);
    assert(one.drop_first() =~= Seq::<Op>::empty());
    reveal_with_fuel(runs_through, 2);
}

/// After a first statement that succeeded, with one successful write (`xs0`) or one
/// successful read (`ys0`), the rest of the program accounts for a failure as the whole does,
/// and lets every statement succeed when the whole does.
proof fn lemma_past_head(
    ops: Seq<Op>,
    b: Book,
    b2: Book,
    xs0: Seq<bool>,
    ys0: ReadLog,
    xs: Seq<bool>,
    ys: ReadLog,
    settings: SearchSettings,
    d: Diagnostic,
)
    requires
        ops.len() > 0,
        !is_query(ops[0]) ==> statement_writes(ops[0], b).0.len() == 1 && statement_writes(ops[0], b).1 == Some(b2) && xs0
            == seq![true] && ys0.len() == 0,
        is_query(ops[0]) ==> b2 == b && xs0.len() == 0 && ys0.len() == 1 && ys0[0] is Some,
    ensures
        explains_failure(ops.drop_first(), b2, xs, ys, settings, d) ==> explains_failure(ops, b, xs0 + xs, ys0 + ys, settings, d),
        runs_through(ops, b, xs0 + xs, ys0 + ys, settings) ==> runs_through(ops.drop_first(), b2, xs, ys, settings),
{
    if is_query(ops[0]) {
        assert(xs0 + xs =~= xs);
        assert((ys0 + ys)[0] == ys0[0]);
        assert((ys0 + ys).drop_first() =~= ys);
    } else {
        assert(ys0 + ys =~= ys);
        assert((xs0 + xs)[0] == true);
        assert((xs0 + xs).drop_first() =~= xs);
        assert((xs0 + xs).skip(1) =~= xs);
    }
}

/// Runs one statement inside the transaction (see `interpret_transaction`).
fn run_statement<W: CatalogWrite>(
    op: &Op,
    transaction: &mut W,
    state: &mut TransactionState,
    settings: SearchSettings,
) -> (r: Result<Value, Diagnostic>)
    ensures
        ({
            let (ws, next) = statement_writes(*op, book_of(*old(state)));
            &&& r matches Ok(v) ==> transaction_value(*op, settings, v) && next is Some && final(transaction).writes()
                == old(transaction).writes() + ws && book_of(*final(state)) == next->0
            &&& r is Err ==> wrote_prefix(old(transaction).writes(), final(transaction).writes(), ws)
            &&& next is None ==> r is Err
        }),
        fails_alone(*op, book_of(*old(state))) ==> (r matches Err(d) && alone_error(*op, d)
            && final(transaction).writes() == old(transaction).writes()),
        ({
            let (ws, next) = statement_writes(*op, book_of(*old(state)));
            r is Err && final(transaction).writes() == old(transaction).writes() + ws && all_succeeded(
                final(transaction).write_results().skip(old(transaction).write_results().len() as int),
            ) && !is_query(*op) ==> next is None && stop_error(*op, book_of(*old(state)), r->Err_0)
        }),
        old(transaction).write_results().len() <= final(transaction).write_results().len(),
        final(transaction).write_results().take(old(transaction).write_results().len() as int) == old(
            transaction,
        ).write_results(),
        old(transaction).reads().len() <= final(transaction).reads().len(),
        final(transaction).reads().take(old(transaction).reads().len() as int) == old(transaction).reads(),
        ({
            let b = book_of(*old(state));
            let xs = final(transaction).write_results().skip(old(transaction).write_results().len() as int);
            let ys = final(transaction).reads().skip(old(transaction).reads().len() as int);
            &&& r matches Err(d) ==> explains_failure(seq![*op], b, xs, ys, settings, d)
            &&& runs_through(seq![*op], b, xs, ys, settings) ==> r is Ok
            &&& r is Ok && !is_query(*op) ==> statement_writes(*op, b).0.len() == 1 && xs == seq![true] && ys.len() == 0
            &&& r is Ok && is_query(*op) ==> xs.len() == 0 && ys.len() == 1 && ys[0] is Some
        }),
{
    let ghost start_results = transaction.write_results();
    let ghost start_reads = transaction.reads();
    let ghost start = transaction.writes();
    let ghost b = book_of(*state);
    proof {
        assert(start == start + Seq::<WriteCall>::empty().take(0));
        assert(start_results.take(start_results.len() as int) =~= start_results);
    }
    let value = match op {
        Op::UpsertFragment { target, text, .. } => {
            let current = state.revision_of(target);
            let body = match text {
                Some(t) => t,
                None => {
                    return Err(internal_program_mismatch());
                },
            };
            let outcome = transaction.upsert_fragment(target, body, current);
            proof {
                let ws = statement_writes(*op, b).0;
                assert(revision_number_of(current) == match b(target@) {
                    Some(e) => Some(e.0 as u64),
                    None => None,
                });
                assert(transaction.writes() =~= start + ws.take(1));
            }
            match outcome {
                Ok(()) => {},
                Err(d) => {
                    proof {
                        assert(transaction.write_results().skip(start_results.len() as int) =~= seq![false]);
                        assert(transaction.write_results().skip(start_results.len() as int)[0] == false);
                    }
                    return Err(d);
                },
            }
            match state.advance(target) {
                Ok(()) => {},
                Err(d) => {
                    return Err(d);
                },
            }
            Value::Unit
        },
        Op::ReplacePrompt { target, children } => {
            let listed = children.as_slice();
            let outcome = transaction.replace_prompt(target, listed);
            proof {
                let ws = statement_writes(*op, b).0;
                assert(listed@ == children@);
                assert(transaction.writes() =~= start + ws.take(1));
            }
            match outcome {
                Ok(()) => {},
                Err(d) => {
                    proof {
                        assert(transaction.write_results().skip(start_results.len() as int) =~= seq![false]);
                        assert(transaction.write_results().skip(start_results.len() as int)[0] == false);
                    }
                    return Err(d);
                },
            }
            match state.advance(target) {
                Ok(()) => {},
                Err(d) => {
                    return Err(d);
                },
            }
            Value::Unit
        },
        Op::Rename { target, new_symbol } => {
            let outcome = transaction.rename(target, new_symbol);
            proof {
                assert(transaction.writes() =~= start + statement_writes(*op, b).0.take(1));
                assert(transaction.write_results().skip(start_results.len() as int) =~= seq![outcome is Ok]);
            }
            match outcome {
                Ok(()) => {},
                Err(d) => {
                    proof {
                        assert(transaction.write_results().skip(start_results.len() as int) =~= seq![false]);
                        assert(transaction.write_results().skip(start_results.len() as int)[0] == false);
                    }
                    return Err(d);
                },
            }
            match state.rename(target, new_symbol) {
                Ok(()) => {},
                Err(d) => {
                    return Err(d);
                },
            }
            Value::Unit
        },
        Op::Delete { target } => {
            let outcome = transaction.delete(target);
            proof {
                assert(transaction.writes() =~= start + statement_writes(*op, b).0.take(1));
                assert(transaction.write_results().skip(start_results.len() as int) =~= seq![outcome is Ok]);
            }
            match outcome {
                Ok(()) => {},
                Err(d) => {
                    proof {
                        assert(transaction.write_results().skip(start_results.len() as int) =~= seq![false]);
                        assert(transaction.write_results().skip(start_results.len() as int)[0] == false);
                    }
                    return Err(d);
                },
            }
            state.remove(target);
            Value::Unit
        },
        Op::SetDescription { target, description } => {
            let mut metadata = match state.metadata_of(target) {
                Ok(m) => m,
                Err(d) => {
                    return Err(d);
                },
            };
            let text = match description {
                Some(d) => Some(d.clone()),
                None => None,
            };
            metadata.set_description(text);
            let outcome = transaction.set_metadata(target, &metadata);
            proof {
                lemma_tag_set_texts(metadata.tag_seq());
                assert(transaction.writes() =~= start + statement_writes(*op, b).0.take(1));
                assert(transaction.write_results().skip(start_results.len() as int) =~= seq![outcome is Ok]);
            }
            match outcome {
                Ok(()) => {},
                Err(d) => {
                    proof {
                        assert(transaction.write_results().skip(start_results.len() as int) =~= seq![false]);
                        assert(transaction.write_results().skip(start_results.len() as int)[0] == false);
                    }
                    return Err(d);
                },
            }
            match state.replace_metadata(target, metadata.clone()) {
                Ok(()) => {},
                Err(d) => {
                    return Err(d);
                },
            }
            Value::Metadata(metadata)
        },
        Op::SetTags { target, tags } => {
            let parsed = match parse_tags(tags) {
                Ok(p) => p,
                Err(d) => {
                    return Err(d);
                },
            };
            let mut metadata = match state.metadata_of(target) {
                Ok(m) => m,
                Err(d) => {
                    return Err(d);
                },
            };
            let ghost parsed_view = parsed@;
            metadata.set_tags(parsed);
            proof {
                assert forall|x: Seq<char>| tag_set(parsed_view).contains(x) <==> text_set(tags@).contains(x) by {
                    if tag_set(parsed_view).contains(x) {
                        let k = choose|k: int| 0 <= k < parsed_view.len() && (#[trigger] parsed_view[k])@ == x;
                        assert(tags@[k]@ == x);
                    }
                    if text_set(tags@).contains(x) {
                        let k = choose|k: int| 0 <= k < tags@.len() && (#[trigger] tags@[k])@ == x;
                        assert(parsed_view[k]@ == x);
                    }
                }
                assert(tag_set(parsed_view) =~= text_set(tags@));
            }
            let outcome = transaction.set_metadata(target, &metadata);
            proof {
                lemma_tag_set_texts(metadata.tag_seq());
                assert(transaction.writes() =~= start + statement_writes(*op, b).0.take(1));
                assert(transaction.write_results().skip(start_results.len() as int) =~= seq![outcome is Ok]);
            }
            match outcome {
                Ok(()) => {},
                Err(d) => {
                    proof {
                        assert(transaction.write_results().skip(start_results.len() as int) =~= seq![false]);
                        assert(transaction.write_results().skip(start_results.len() as int)[0] == false);
                    }
                    return Err(d);
                },
            }
            match state.replace_metadata(target, metadata.clone()) {
                Ok(()) => {},
                Err(d) => {
                    return Err(d);
                },
            }
            Value::Metadata(metadata)
        },
        query => {
            let snapshot = match transaction.snapshot() {
                Ok(s) => s,
                Err(d) => {
                    return Err(d);
                },
            };
            match interpret_query(query, &snapshot, settings) {
                Ok(v) => v,
                Err(d) => {
                    return Err(d);
                },
            }
        },
    };
    Ok(value)
}

} // verus!
