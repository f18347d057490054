use promptr::application::inject::inject_prepared;
use promptr::application::interpret::{interpret_query, interpret_read_only};
use promptr::application::prepare::{accept_edit, prepare_fragments, FragmentStaging, PreparedFragment};
use promptr::application::runtime::{domain_diagnostic, node_view, validate_preconditions};
use promptr::application::search::{contains_text, search, MatchAlgorithm, SearchSettings};
use promptr::application::transaction::{interpret_transaction, parse_tags, TransactionState};
use promptr::application::{CatalogRead, CatalogWrite, CheckedProgram, ReadLog, WriteLog, WriteResults, NodeFilter, NodePrecondition, Op, Value};
use promptr::diagnostic::{Diagnostic, DiagnosticCategory};
use promptr::domain::{
    CatalogSnapshot, DomainError, Metadata, Node, NodeBody, NodeHeader, NodeId, NonEmptyChildren, Revision,
    SearchField, Symbol, XmlText,
};
use promptr::editor::{BuiltinTextProvider, EditRequest, EditTarget, EditorError, EditorOutcome, PreparedEdit};

fn id(value: i64) -> NodeId {
    NodeId::new(value).unwrap()
}

fn sym(s: &str) -> Symbol {
    Symbol::new(s).unwrap()
}

fn node(value: i64, symbol: &str, revision: u64, body: NodeBody) -> Node {
    Node::from_parts(
        NodeHeader {
            id: id(value),
            symbol: sym(symbol),
            kind: body.kind(),
            revision: Revision::new(revision).unwrap(),
            metadata: Metadata::default(),
            created_at_ms: 0,
            updated_at_ms: 0,
        },
        body,
    )
    .unwrap()
}

fn fragment(value: i64, symbol: &str, text: &str) -> Node {
    node(value, symbol, 1, NodeBody::Fragment(XmlText::new(text).unwrap()))
}

fn prompt(value: i64, symbol: &str, children: Vec<NodeId>) -> Node {
    node(value, symbol, 1, NodeBody::Prompt(NonEmptyChildren::new(children).unwrap()))
}

fn catalog() -> CatalogSnapshot {
    CatalogSnapshot::new(vec![
        fragment(1, "Alpha", "needle in text"),
        fragment(2, "Beta", "other words"),
        prompt(3, "Root", vec![id(1), id(1)]),
    ])
    .unwrap()
}

fn exact() -> SearchSettings {
    SearchSettings { default_field: SearchField::Mixed, matcher: MatchAlgorithm::Exact }
}

#[test]
fn domain_errors_map_to_stable_codes_and_messages() {
    let d = domain_diagnostic(DomainError::CycleDetected { at: id(7) });
    assert_eq!(d.code, "E_CYCLE");
    assert_eq!(d.message, "cycle detected at node 7");
    let d = domain_diagnostic(DomainError::InvalidXmlCharacter { character: '\u{1}', byte_offset: 12 });
    assert_eq!(d.code, "E_INVALID_XML_TEXT");
    assert_eq!(d.message, "character U+0001 at byte 12 is not valid XML 1.0 text");
    let d = domain_diagnostic(DomainError::InvalidPositiveInteger { kind: "revision", value: -3 });
    assert_eq!(d.message, "revision must be positive, got -3");
    let d = domain_diagnostic(DomainError::KindMismatch {
        declared: promptr::domain::NodeKind::Prompt,
        actual: promptr::domain::NodeKind::Fragment,
    });
    assert_eq!(d.message, "declared node kind Prompt does not match body kind Fragment");
}

#[test]
fn stale_precondition_is_a_conflict_with_what_was_found() {
    let snapshot = catalog();
    let ok = NodePrecondition::new(sym("Alpha"), id(1), Revision::new(1).unwrap());
    assert!(validate_preconditions(&snapshot, &[ok]).is_ok());
    let stale = NodePrecondition::new(sym("Alpha"), id(1), Revision::new(4).unwrap());
    let d = validate_preconditions(&snapshot, &[stale]).unwrap_err();
    assert_eq!(d.code, "E_CONFLICT");
    assert_eq!(
        d.message,
        "node `Alpha` changed (expected node id 1, revision 4; found node id 1, revision 1)"
    );
    let gone = NodePrecondition::new(sym("Gone"), id(9), Revision::new(1).unwrap());
    let d = validate_preconditions(&snapshot, &[gone]).unwrap_err();
    assert_eq!(
        d.message,
        "node `Gone` changed (expected node id 9, revision 1; found missing or renamed)"
    );
}

#[test]
fn node_view_names_children_and_sizes_fragments() {
    let snapshot = catalog();
    let root = snapshot.get(id(3)).unwrap();
    let view = node_view(&snapshot, root).unwrap();
    let names: Vec<&str> = view.children.iter().map(|s| s.as_str()).collect();
    assert_eq!(names, vec!["Alpha", "Alpha"]);
    assert_eq!(view.byte_size, None);
    let leaf = node_view(&snapshot, snapshot.get(id(1)).unwrap()).unwrap();
    assert_eq!(leaf.byte_size, Some("needle in text".len()));
}

#[test]
fn exact_search_is_a_case_sensitive_substring_not_a_fuzzy_match() {
    let snapshot = catalog();
    let hits = search(&snapshot, "needle", SearchField::Content, None, MatchAlgorithm::Exact).unwrap();
    assert_eq!(hits.len(), 1);
    assert_eq!(hits[0].symbol.as_str(), "Alpha");
    assert_eq!(hits[0].score, 1);
    assert_eq!(hits[0].occurrence_count, 1);
    assert!(search(&snapshot, "Needle", SearchField::Content, None, MatchAlgorithm::Exact).unwrap().is_empty());
    assert!(search(&snapshot, "ndl", SearchField::Content, None, MatchAlgorithm::Exact).unwrap().is_empty());
    assert!(contains_text("abc", ""));
    assert!(!contains_text("", "a"));
}

#[test]
fn scoped_search_counts_occurrences_and_rejects_fragment_roots() {
    let snapshot = catalog();
    let root = sym("Root");
    let hits = search(&snapshot, "", SearchField::Mixed, Some(&root), MatchAlgorithm::Exact).unwrap();
    assert_eq!(hits.len(), 1);
    assert_eq!(hits[0].occurrence_count, 2);
    let leaf = sym("Alpha");
    let err = search(&snapshot, "", SearchField::Mixed, Some(&leaf), MatchAlgorithm::Exact).unwrap_err();
    assert_eq!(err.code, "E_KIND");
    assert_eq!(err.message, "`Alpha` is not a prompt");
    let missing = sym("Nope");
    assert_eq!(
        search(&snapshot, "", SearchField::Mixed, Some(&missing), MatchAlgorithm::Exact).unwrap_err().code,
        "E_UNKNOWN_SYMBOL"
    );
}

#[test]
fn fuzzy_search_ranks_by_score_then_symbol() {
    let snapshot = CatalogSnapshot::new(vec![
        fragment(1, "zzz", "abc"),
        fragment(2, "aaa", "abc"),
        fragment(3, "mmm", "xyz"),
    ])
    .unwrap();
    let hits = search(&snapshot, "abc", SearchField::Content, None, MatchAlgorithm::Fuzzy).unwrap();
    let names: Vec<&str> = hits.iter().map(|h| h.symbol.as_str()).collect();
    assert_eq!(names, vec!["aaa", "zzz"]);
    assert!(hits[0].score > 0);
    assert_eq!(hits[0].score, hits[1].score);
}

#[test]
fn read_queries_share_snapshot_and_expose_typed_output() {
    let snapshot = catalog();
    let program = CheckedProgram::new(vec![
        Op::List { filter: NodeFilter::Fragments },
        Op::Inspect { target: sym("Root") },
        Op::RenderXml { root: sym("Root") },
    ]);
    let values = interpret_read_only(&program, &snapshot, exact()).unwrap();
    match &values[0] {
        Value::Nodes(nodes) => {
            let names: Vec<&str> = nodes.iter().map(|n| n.symbol.as_str()).collect();
            assert_eq!(names, vec!["Alpha", "Beta"]);
        },
        other => panic!("unexpected {other:?}"),
    }
    assert!(matches!(&values[1], Value::Node(v) if v.symbol.as_str() == "Root"));
    match &values[2] {
        Value::Xml(bytes) => assert_eq!(
            bytes.as_slice(),
            b"<Root><Alpha>needle in text</Alpha><Alpha>needle in text</Alpha></Root>\n"
        ),
        other => panic!("unexpected {other:?}"),
    }
    let unknown = interpret_query(&Op::Inspect { target: sym("Zed") }, &snapshot, exact()).unwrap_err();
    assert_eq!(unknown.code, "E_UNKNOWN_SYMBOL");
    assert_eq!(unknown.message, "unknown symbol `Zed`");
    let mismatch = interpret_query(&Op::Delete { target: sym("Alpha") }, &snapshot, exact()).unwrap_err();
    assert_eq!(mismatch.code, "E_INTERNAL_PROGRAM");
}

fn request(text: &str) -> EditRequest {
    EditRequest { target: EditTarget { node_id: None, base_revision: None }, original_text: text.to_owned() }
}

#[test]
fn accept_edit_checks_identity_and_text() {
    let req = request("x");
    assert!(matches!(accept_edit(&req, Ok(EditorOutcome::Cancel)), Ok(None)));
    let failed = accept_edit(&req, Err(EditorError::EmptyCommand)).unwrap_err();
    assert_eq!(failed.code, "E_EDITOR");
    assert_eq!(failed.details.causes, vec!["external editor command must contain a program".to_string()]);
    let moved = PreparedEdit {
        target: EditTarget { node_id: Some(id(4)), base_revision: Some(Revision::new(1).unwrap()) },
        original_text: "x".into(),
        edited_text: "y".into(),
    };
    assert_eq!(accept_edit(&req, Ok(EditorOutcome::Save(moved))).unwrap_err().code, "E_EDITOR_TARGET");
    let bad_text = PreparedEdit { target: req.target, original_text: "x".into(), edited_text: "\u{1}".into() };
    assert_eq!(accept_edit(&req, Ok(EditorOutcome::Save(bad_text))).unwrap_err().code, "E_INVALID_XML_TEXT");
    let good = PreparedEdit { target: req.target, original_text: "x".into(), edited_text: "fine".into() };
    let (target, text) = accept_edit(&req, Ok(EditorOutcome::Save(good))).unwrap().unwrap();
    assert_eq!(target, req.target);
    assert_eq!(text.as_str(), "fine");
}

#[test]
fn repeated_fragment_preparation_uses_the_preceding_draft() {
    let snapshot = catalog();
    let program = CheckedProgram::new(vec![
        Op::UpsertFragment { target: sym("Alpha"), text: None, expected_revision: None },
        Op::UpsertFragment { target: sym("Alpha"), text: None, expected_revision: None },
    ]);
    let seen = std::cell::RefCell::new(Vec::new());
    let mut provider = BuiltinTextProvider::new(|initial: &str| -> Result<Option<String>, EditorError> {
        seen.borrow_mut().push(initial.to_owned());
        Ok(Some(format!("{initial}+")))
    });
    let prepared = prepare_fragments(&program, &snapshot, Some(&mut provider)).unwrap().unwrap();
    assert_eq!(*seen.borrow(), vec!["needle in text".to_string(), "needle in text+".to_string()]);
    assert_eq!(prepared.len(), 2);
    assert_eq!(prepared[1].text.as_str(), "needle in text++");
    assert_eq!(prepared[0].edit_target.node_id, Some(id(1)));
}

#[test]
fn preparation_identity_follows_delete_and_rename_overlay() {
    let snapshot = catalog();
    let program = CheckedProgram::new(vec![
        Op::Rename { target: sym("Alpha"), new_symbol: sym("Gamma") },
        Op::UpsertFragment { target: sym("Gamma"), text: None, expected_revision: None },
        Op::Delete { target: sym("Beta") },
        Op::UpsertFragment { target: sym("Beta"), text: None, expected_revision: None },
    ]);
    let seen = std::cell::RefCell::new(Vec::new());
    let mut provider = BuiltinTextProvider::new(|initial: &str| -> Result<Option<String>, EditorError> {
        seen.borrow_mut().push(initial.to_owned());
        Ok(Some("new".to_owned()))
    });
    let prepared = prepare_fragments(&program, &snapshot, Some(&mut provider)).unwrap().unwrap();
    assert_eq!(*seen.borrow(), vec!["needle in text".to_string(), String::new()]);
    assert_eq!(prepared[0].edit_target.node_id, Some(id(1)));
    assert_eq!(prepared[1].edit_target.node_id, None);
}

#[test]
fn missing_provider_and_cancellation_are_reported() {
    let snapshot = catalog();
    let program = CheckedProgram::new(vec![Op::UpsertFragment { target: sym("Alpha"), text: None, expected_revision: None }]);
    let none: Option<&mut BuiltinTextProvider<fn(&str) -> Result<Option<String>, EditorError>>> = None;
    assert_eq!(prepare_fragments(&program, &snapshot, none).unwrap_err().code, "E_TEXT_PROVIDER");
    let mut cancel = BuiltinTextProvider::new(|_: &str| -> Result<Option<String>, EditorError> { Ok(None) });
    assert!(prepare_fragments(&program, &snapshot, Some(&mut cancel)).unwrap().is_none());
    let empty = CheckedProgram::new(vec![Op::List { filter: NodeFilter::All }]);
    assert!(prepare_fragments(&empty, &snapshot, Some(&mut cancel)).unwrap().unwrap().is_empty());
    let staging = FragmentStaging::from_snapshot(&snapshot);
    assert_eq!(staging.request_for(&sym("Beta")).original_text, "other words");
    assert_eq!(staging.request_for(&sym("Root")).original_text, "");
}

fn prepared(target: &str, node: Option<i64>, revision: Option<u64>, text: &str) -> PreparedFragment {
    PreparedFragment {
        target: sym(target),
        edit_target: EditTarget {
            node_id: node.map(id),
            base_revision: revision.map(|r| Revision::new(r).unwrap()),
        },
        text: XmlText::new(text).unwrap(),
    }
}

#[test]
fn prepared_existing_fragment_rejects_authoritative_revision_change() {
    let snapshot = catalog();
    let mut program = CheckedProgram::new(vec![Op::UpsertFragment { target: sym("Alpha"), text: None, expected_revision: None }]);
    let err = inject_prepared(&mut program, &[prepared("Alpha", Some(1), Some(2), "x")], &snapshot).unwrap_err();
    assert_eq!(err.code, "E_CONFLICT");
    assert_eq!(err.message, "fragment `Alpha` changed while it was being edited");
    let mut program = CheckedProgram::new(vec![Op::UpsertFragment { target: sym("Alpha"), text: None, expected_revision: None }]);
    inject_prepared(&mut program, &[prepared("Alpha", Some(1), Some(1), "x")], &snapshot).unwrap();
    match &program.ops[0] {
        Op::UpsertFragment { text, expected_revision, .. } => {
            assert_eq!(text.as_ref().unwrap().as_str(), "x");
            assert_eq!(*expected_revision, Some(Revision::new(1).unwrap()));
        },
        other => panic!("unexpected {other:?}"),
    }
    let mut program = CheckedProgram::new(vec![]);
    assert_eq!(
        inject_prepared(&mut program, &[prepared("Alpha", None, None, "x")], &snapshot).unwrap_err().code,
        "E_INTERNAL_PROGRAM"
    );
}

#[derive(Default)]
struct RecordingWrite {
    calls: Vec<String>,
    nodes: Vec<Node>,
    refuse_reads: bool,
    refuse_writes: bool,
}

impl CatalogRead for RecordingWrite {
    fn reads(&self) -> ReadLog {
        unreachable!("the read log is a specification, not run")
    }
    fn writes(&self) -> WriteLog {
        unreachable!("the write log is a specification, not run")
    }
    fn write_results(&self) -> WriteResults {
        unreachable!("the write log is a specification, not run")
    }
    fn snapshot(&mut self) -> Result<CatalogSnapshot, Diagnostic> {
        self.calls.push("snapshot".to_string());
        if self.refuse_reads {
            return Err(Diagnostic::error("E_STORE", DiagnosticCategory::Storage, "store unavailable"));
        }
        CatalogSnapshot::new(self.nodes.clone()).map_err(domain_diagnostic)
    }
}

impl CatalogWrite for RecordingWrite {
    fn upsert_fragment(&mut self, target: &Symbol, text: &XmlText, expected: Option<Revision>) -> Result<(), Diagnostic> {
        self.calls.push(format!("upsert {} {} {:?}", target.as_str(), text.as_str(), expected.map(|r| r.get())));
        if self.refuse_writes {
            return Err(Diagnostic::error("E_STORE", DiagnosticCategory::Storage, "store unavailable"));
        }
        Ok(())
    }
    fn replace_prompt(&mut self, target: &Symbol, children: &[Symbol]) -> Result<(), Diagnostic> {
        self.calls.push(format!("prompt {} {}", target.as_str(), children.len()));
        if self.refuse_writes {
            return Err(Diagnostic::error("E_STORE", DiagnosticCategory::Storage, "store unavailable"));
        }
        Ok(())
    }
    fn rename(&mut self, target: &Symbol, new_symbol: &Symbol) -> Result<(), Diagnostic> {
        self.calls.push(format!("rename {} {}", target.as_str(), new_symbol.as_str()));
        if self.refuse_writes {
            return Err(Diagnostic::error("E_STORE", DiagnosticCategory::Storage, "store unavailable"));
        }
        Ok(())
    }
    fn delete(&mut self, target: &Symbol) -> Result<(), Diagnostic> {
        self.calls.push(format!("delete {}", target.as_str()));
        if self.refuse_writes {
            return Err(Diagnostic::error("E_STORE", DiagnosticCategory::Storage, "store unavailable"));
        }
        Ok(())
    }
    fn set_metadata(&mut self, target: &Symbol, metadata: &Metadata) -> Result<(), Diagnostic> {
        self.calls.push(format!("metadata {} {:?}", target.as_str(), metadata.description()));
        if self.refuse_writes {
            return Err(Diagnostic::error("E_STORE", DiagnosticCategory::Storage, "store unavailable"));
        }
        Ok(())
    }
}

#[test]
fn transaction_tracks_revisions_across_statements() {
    let snapshot = catalog();
    let program = CheckedProgram::new(vec![
        Op::UpsertFragment { target: sym("Alpha"), text: Some(XmlText::new("a").unwrap()), expected_revision: None },
        Op::UpsertFragment { target: sym("Alpha"), text: Some(XmlText::new("b").unwrap()), expected_revision: None },
        Op::UpsertFragment { target: sym("Fresh"), text: Some(XmlText::new("c").unwrap()), expected_revision: None },
        Op::SetDescription { target: sym("Beta"), description: Some("about".into()) },
        Op::Rename { target: sym("Beta"), new_symbol: sym("Gamma") },
    ]);
    let mut write = RecordingWrite::default();
    let values = interpret_transaction(&program, &mut write, &snapshot, exact()).unwrap();
    assert_eq!(
        write.calls,
        vec![
            "upsert Alpha a Some(1)".to_string(),
            "upsert Alpha b Some(2)".to_string(),
            "upsert Fresh c None".to_string(),
            "metadata Beta Some(\"about\")".to_string(),
            "rename Beta Gamma".to_string(),
        ]
    );
    assert!(matches!(&values[3], Value::Metadata(m) if m.description() == Some("about")));
    assert!(matches!(values[4], Value::Unit));
    let mut state = TransactionState::from_snapshot(&snapshot);
    assert_eq!(state.revision_of(&sym("Alpha")).unwrap().get(), 1);
    state.advance(&sym("Alpha")).unwrap();
    assert_eq!(state.revision_of(&sym("Alpha")).unwrap().get(), 2);
    state.rename(&sym("Alpha"), &sym("Omega")).unwrap();
    assert!(state.revision_of(&sym("Alpha")).is_none());
    assert_eq!(state.revision_of(&sym("Omega")).unwrap().get(), 3);
    assert_eq!(state.rename(&sym("Nope"), &sym("X")).unwrap_err().code, "E_UNKNOWN_SYMBOL");
}

#[test]
fn commit_of_tags_parses_every_tag() {
    assert_eq!(parse_tags(&vec!["a".into(), "b".into()]).unwrap().len(), 2);
    let err = parse_tags(&vec!["a".into(), "  ".into()]).unwrap_err();
    assert_eq!(err.code, "E_INVALID_TAG");
    assert_eq!(err.message, "a tag must not be empty or whitespace-only");
}

#[test]
fn transaction_queries_read_the_current_catalog() {
    let snapshot = catalog();
    let program = CheckedProgram::new(vec![
        Op::Delete { target: sym("Beta") },
        Op::List { filter: NodeFilter::Fragments },
    ]);
    let mut write = RecordingWrite { nodes: vec![fragment(1, "Alpha", "needle in text")], ..RecordingWrite::default() };
    let values = interpret_transaction(&program, &mut write, &snapshot, exact()).unwrap();
    assert_eq!(write.calls, vec!["delete Beta".to_string(), "snapshot".to_string()]);
    assert!(matches!(values[0], Value::Unit));
    match &values[1] {
        Value::Nodes(nodes) => {
            assert_eq!(nodes.len(), 1);
            assert_eq!(nodes[0].symbol.as_str(), "Alpha");
        }
        other => panic!("unexpected value {other:?}"),
    }
}

#[test]
fn transaction_stops_at_a_refused_write() {
    let snapshot = catalog();
    let program = CheckedProgram::new(vec![
        Op::Delete { target: sym("Beta") },
        Op::Delete { target: sym("Alpha") },
    ]);
    let mut write = RecordingWrite { refuse_writes: true, ..RecordingWrite::default() };
    let err = interpret_transaction(&program, &mut write, &snapshot, exact()).unwrap_err();
    assert_eq!(err.code, "E_STORE");
    assert_eq!(write.calls, vec!["delete Beta".to_string()]);
}

#[test]
fn transaction_stops_at_a_refused_read() {
    let snapshot = catalog();
    let program = CheckedProgram::new(vec![
        Op::List { filter: NodeFilter::All },
        Op::Delete { target: sym("Alpha") },
    ]);
    let mut write = RecordingWrite { refuse_reads: true, ..RecordingWrite::default() };
    let err = interpret_transaction(&program, &mut write, &snapshot, exact()).unwrap_err();
    assert_eq!(err.code, "E_STORE");
    assert_eq!(write.calls, vec!["snapshot".to_string()]);
}

#[test]
fn transaction_query_on_an_unknown_symbol_fails() {
    let snapshot = catalog();
    let program = CheckedProgram::new(vec![Op::Inspect { target: sym("Nowhere") }]);
    let mut write = RecordingWrite { nodes: vec![fragment(1, "Alpha", "needle in text")], ..RecordingWrite::default() };
    let err = interpret_transaction(&program, &mut write, &snapshot, exact()).unwrap_err();
    assert_eq!(err.code, "E_UNKNOWN_SYMBOL");
}

#[test]
fn find_saturates_path_count_instead_of_failing() {
    let mut nodes = vec![fragment(1, "Needle", "match")];
    for value in 2..=66 {
        nodes.push(prompt(value, &format!("P{value}"), vec![id(value - 1); 2]));
    }
    let snapshot = CatalogSnapshot::new(nodes).unwrap();
    let hits = search(&snapshot, "Needle", SearchField::Title, Some(&sym("P66")), MatchAlgorithm::Fuzzy).unwrap();
    assert_eq!(hits.len(), 1);
    assert_eq!(hits[0].occurrence_count, u64::MAX);
}
