use promptr::application::NodeView;
use promptr::config::schema::PreviewMode;
use promptr::domain::{Metadata, NodeId, NodeKind, Revision, Symbol};
use promptr::tui::capability::parse_color;
use promptr::tui::results::{configured_preview, mutation_selection_hint, preview_source, tree_lines};
use promptr::tui::{Color, PreviewTab, RuntimeRequest};

fn node(id: i64, symbol: &str, kind: NodeKind, children: Vec<Symbol>) -> NodeView {
    NodeView {
        id: NodeId::new(id).unwrap(),
        symbol: Symbol::new(symbol).unwrap(),
        kind,
        revision: Revision::new(1).unwrap(),
        children,
        byte_size: None,
        metadata: Metadata::default(),
    }
}

#[test]
fn occurrence_tree_is_bounded_and_preserves_duplicates() {
    let leaf = node(1, "Leaf", NodeKind::Fragment, vec![]);
    let root = node(
        2,
        "Root",
        NodeKind::Prompt,
        vec![leaf.symbol.clone(), leaf.symbol.clone()],
    );
    let lines = tree_lines(&root, &[root.clone(), leaf], 2);
    assert_eq!(lines[0], "Root");
    assert_eq!(lines[1].trim(), "Leaf");
    assert!(lines[2].contains("visual budget"));
}

#[test]
fn occurrence_tree_indents_by_depth_and_lists_every_occurrence_within_budget() {
    let leaf = node(1, "Leaf", NodeKind::Fragment, vec![]);
    let mid = node(2, "Mid", NodeKind::Prompt, vec![Symbol::new("Leaf").unwrap()]);
    let root = node(
        3,
        "Root",
        NodeKind::Prompt,
        vec![Symbol::new("Mid").unwrap(), Symbol::new("Leaf").unwrap()],
    );
    let lines = tree_lines(&root, &[root.clone(), mid, leaf], 10);
    assert_eq!(lines, vec!["Root", "  Mid", "    Leaf", "  Leaf"]);
    let cut = tree_lines(&root, &[root.clone()], 1);
    assert_eq!(cut, vec!["Root", "… more occurrences (visual budget 1)"]);
}

#[test]
fn configured_non_default_preview_is_honored() {
    assert_eq!(configured_preview(PreviewMode::Metadata), PreviewTab::Metadata);
    assert_eq!(parse_color("#010203"), Color::Rgb(1, 2, 3));
}

#[test]
fn preview_scripts_print_and_output_by_tab() {
    assert_eq!(preview_source("Leaf", PreviewTab::Xml), "PRINT Leaf; OUTPUT Leaf;");
    assert_eq!(preview_source("Leaf", PreviewTab::Tree), "PRINT Leaf;");
}

#[test]
fn rename_of_the_selected_row_moves_the_selection() {
    let request = RuntimeRequest::Eval("rename Old TO New;  ".into());
    assert_eq!(mutation_selection_hint(&request, Some("Old")), Some("New".to_string()));
    assert_eq!(mutation_selection_hint(&request, Some("Other")), Some("Other".to_string()));
    let other = RuntimeRequest::Eval("DELETE Old;".into());
    assert_eq!(mutation_selection_hint(&other, Some("Old")), Some("Old".to_string()));
}
