use promptr::diagnostic::DiagnosticCategory;
use promptr::domain::node::{NodeBody, NodeKind, Symbol};
use promptr::store::{
    ledger_error, node_from_row, normal_error, open_step, repair_version, schema_checksum, snapshot_from_rows, Ledger,
    StoredNode, APPLICATION_ID, MIGRATION_NAME, SCHEMA_SQL,
};

fn fragment(id: i64, symbol: &str, text: &str) -> StoredNode {
    StoredNode {
        id,
        symbol: symbol.to_string(),
        kind: "fragment".to_string(),
        revision: 1,
        description: None,
        created_at_ms: 10,
        updated_at_ms: 20,
        tags: Vec::new(),
        text: text.to_string(),
        children: Vec::new(),
    }
}

fn prompt(id: i64, symbol: &str, children: Vec<i64>) -> StoredNode {
    StoredNode {
        kind: "prompt".to_string(),
        text: String::new(),
        children,
        ..fragment(id, symbol, "")
    }
}

#[test]
fn stored_fragment_becomes_a_node_with_normalized_metadata() {
    let mut row = fragment(3, "Greeting", "<b>hi</b>");
    row.revision = 7;
    row.description = Some(String::new());
    row.tags = vec!["zeta".to_string(), "alpha".to_string(), "zeta".to_string()];
    let node = node_from_row(row).unwrap();
    assert_eq!(node.header.id.get(), 3);
    assert_eq!(node.header.symbol.as_str(), "Greeting");
    assert_eq!(node.header.kind, NodeKind::Fragment);
    assert_eq!(node.header.revision.get(), 7);
    assert_eq!(node.header.metadata.description(), None);
    let tags: Vec<&str> = node.header.metadata.tags().iter().map(|t| t.as_str()).collect();
    assert_eq!(tags, vec!["alpha", "zeta"]);
    assert_eq!(node.header.created_at_ms, 10);
    assert_eq!(node.header.updated_at_ms, 20);
    match &node.body {
        NodeBody::Fragment(t) => assert_eq!(t.as_str(), "<b>hi</b>"),
        other => panic!("expected a fragment, got {:?}", other),
    }
}

#[test]
fn stored_prompt_keeps_child_order_and_duplicates() {
    let node = node_from_row(prompt(4, "Both", vec![2, 1, 2])).unwrap();
    assert_eq!(node.header.kind, NodeKind::Prompt);
    match &node.body {
        NodeBody::Prompt(c) => {
            let ids: Vec<i64> = c.as_slice().iter().map(|id| id.get()).collect();
            assert_eq!(ids, vec![2, 1, 2]);
        }
        other => panic!("expected a prompt, got {:?}", other),
    }
}

#[test]
fn stored_rows_report_their_first_fault() {
    let d = node_from_row(fragment(0, "A", "")).unwrap_err();
    assert_eq!(d.code, "E_DOMAIN");
    assert_eq!(d.category, DiagnosticCategory::Domain);
    assert_eq!(d.message, "node id must be positive, got 0");
    let d = node_from_row(fragment(1, "9lives", "")).unwrap_err();
    assert_eq!(d.message, "invalid symbol `9lives`");
    let mut row = fragment(1, "A", "");
    row.revision = -4;
    assert_eq!(node_from_row(row).unwrap_err().message, "revision must be positive, got -4");
    let mut row = fragment(1, "A", "");
    row.revision = 0;
    assert_eq!(node_from_row(row).unwrap_err().message, "revision must be positive, got 0");
    let mut row = fragment(1, "A", "\u{1}");
    row.tags = vec!["  ".to_string()];
    assert_eq!(node_from_row(row).unwrap_err().code, "E_DOMAIN");
    let d = node_from_row(fragment(1, "A", "ok\u{1}")).unwrap_err();
    assert!(d.message.contains("U+0001"));
    let d = node_from_row(prompt(1, "A", vec![])).unwrap_err();
    assert_eq!(d.code, "E_DOMAIN");
    let d = node_from_row(prompt(1, "A", vec![5, -2])).unwrap_err();
    assert_eq!(d.message, "node id must be positive, got -2");
    let mut row = fragment(1, "A", "");
    row.kind = "macro".to_string();
    let d = node_from_row(row).unwrap_err();
    assert_eq!(d.code, "E_DB_KIND");
    assert_eq!(d.category, DiagnosticCategory::Internal);
    assert_eq!(d.message, "unknown persisted node kind `macro`");
}

#[test]
fn stored_rows_make_a_catalog_only_when_closed_and_acyclic() {
    let snapshot = snapshot_from_rows(vec![fragment(1, "Leaf", "x"), prompt(2, "Root", vec![1, 1])]).unwrap();
    assert_eq!(snapshot.len(), 2);
    let root = snapshot.get_by_symbol(&Symbol::new("Root").unwrap()).unwrap();
    assert_eq!(root.header.id.get(), 2);
    let d = snapshot_from_rows(vec![prompt(2, "Root", vec![9])]).err().unwrap();
    assert_eq!(d.code, "E_DOMAIN");
    let d = snapshot_from_rows(vec![prompt(1, "A", vec![2]), prompt(2, "B", vec![1])]).err().unwrap();
    assert_eq!(d.code, "E_DOMAIN");
    let d = snapshot_from_rows(vec![fragment(1, "A", "x"), fragment(-1, "B", "y")]).err().unwrap();
    assert_eq!(d.message, "node id must be positive, got -1");
}

#[test]
fn ledger_decides_whether_a_database_is_usable() {
    let good = Ledger::Latest { version: 1, name: MIGRATION_NAME.to_string(), checksum: "sum".to_string() };
    assert!(ledger_error(1, &good, "sum").is_none());
    let d = ledger_error(2, &good, "sum").unwrap();
    assert_eq!(d.code, "E_SCHEMA_NEW");
    assert_eq!(d.message, "database schema 2 is newer than supported schema 1");
    assert_eq!(ledger_error(1, &Ledger::Missing, "sum").unwrap().message, "migration ledger is missing");
    assert_eq!(ledger_error(1, &Ledger::Empty, "sum").unwrap().message, "migration ledger is empty");
    let d = ledger_error(0, &good, "sum").unwrap();
    assert_eq!(d.code, "E_DB_VERSION_MIRROR");
    assert_eq!(d.message, "user_version 0 differs from migration ledger 1");
    let d = ledger_error(1, &good, "other").unwrap();
    assert_eq!(d.message, "migration 1 metadata or checksum does not match this executable");
}

#[test]
fn schema_checksum_is_a_sha256_of_the_schema_script() {
    let checksum = schema_checksum();
    assert_eq!(checksum.len(), 64);
    assert_ne!(checksum, SCHEMA_SQL);
    assert!(checksum.chars().all(|c| c.is_ascii_hexdigit() && !c.is_ascii_uppercase()));
    let current = Ledger::Latest { version: 1, name: MIGRATION_NAME.to_string(), checksum: checksum.clone() };
    assert!(normal_error(1, &current).is_none());
    let tampered = Ledger::Latest { version: 1, name: MIGRATION_NAME.to_string(), checksum: "0".repeat(64) };
    assert_eq!(normal_error(1, &tampered).unwrap().code, "E_DB_MIGRATION");
}

#[test]
fn opening_creates_blank_databases_and_refuses_foreign_ones() {
    assert!(open_step(0, 0).unwrap());
    assert!(!open_step(APPLICATION_ID, 1).unwrap());
    assert!(!open_step(0, 3).unwrap());
    let d = open_step(42, 0).unwrap_err();
    assert_eq!(d.code, "E_DB_ID");
    assert_eq!(d.message, "database application_id 42 does not identify a Promptr database");
}

#[test]
fn version_mirror_can_be_repaired_but_bad_checksum_cannot() {
    let checksum = schema_checksum();
    let ledger = Ledger::Latest { version: 1, name: MIGRATION_NAME.to_string(), checksum: checksum.clone() };
    // The header's user_version was reset to 0 behind the ledger's back.
    assert_eq!(normal_error(0, &ledger).unwrap().code, "E_DB_VERSION_MIRROR");
    let repaired = repair_version(0, Some(1), Some((MIGRATION_NAME.to_string(), checksum.clone()))).unwrap();
    assert_eq!(repaired, 1);
    assert!(normal_error(repaired, &ledger).is_none());
    // The first migration's checksum was overwritten.
    let d = repair_version(1, Some(1), Some((MIGRATION_NAME.to_string(), "bad".to_string()))).unwrap_err();
    assert_eq!(d.code, "E_DB_MIGRATION");
}

#[test]
fn repair_refuses_newer_or_empty_ledgers() {
    assert_eq!(repair_version(2, Some(1), None).unwrap_err().code, "E_SCHEMA_NEW");
    assert_eq!(repair_version(1, None, None).unwrap_err().message, "migration ledger is empty");
    assert_eq!(repair_version(1, Some(5), None).unwrap_err().message, "database schema 5 is newer than supported schema 1");
    assert_eq!(repair_version(0, Some(0), None).unwrap(), 0);
}

#[test]
fn status_is_compatible_only_for_a_usable_catalog_database() {
    let ledger = Ledger::Latest { version: 1, name: MIGRATION_NAME.to_string(), checksum: "x".to_string() };
    let s = promptr::store::database_status(None, APPLICATION_ID, 1, &ledger, true);
    assert!(s.compatible);
    assert_eq!(s.ledger_version, Some(1));
    assert!(!promptr::store::database_status(None, 7, 1, &ledger, true).compatible);
    let s = promptr::store::database_status(None, APPLICATION_ID, 1, &Ledger::Empty, false);
    assert!(!s.compatible);
    assert_eq!(s.ledger_version, None);
}
