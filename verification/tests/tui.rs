use promptr::domain::{NodeId, Revision};
use promptr::editor::EditTarget;
use promptr::tui::model::{token_changed, update};
use promptr::tui::{
    runtime_request, Confirmation, Draft, EditorMove, Effect, HitRegion, HitTarget, InputEvent,
    InputMapper, KeyCode, KeyInput, Layout, LayoutClass, Mode, Model, MouseInput, MouseKind,
    MoveDirection, Pane, PreviewTab, Rect, RuntimeRequest, UiAction,
};

#[test]
fn breakpoints_are_exhaustive_and_exact() {
    assert_eq!(LayoutClass::for_size(140, 32), LayoutClass::ThreePane);
    assert_eq!(LayoutClass::for_size(139, 32), LayoutClass::TwoPane);
    assert_eq!(LayoutClass::for_size(90, 24), LayoutClass::TwoPane);
    assert_eq!(LayoutClass::for_size(89, 24), LayoutClass::SinglePane);
    assert_eq!(LayoutClass::for_size(200, 23), LayoutClass::SinglePane);
    assert_eq!(LayoutClass::for_size(59, 100), LayoutClass::Focused);
    assert_eq!(LayoutClass::for_size(200, 15), LayoutClass::Focused);
}

#[test]
fn effects_map_to_the_shared_dsl_path() {
    assert_eq!(
        runtime_request(Effect::Search("a\"b".into()), None),
        Some(RuntimeRequest::Eval("SEARCH \"a\\\"b\";".into()))
    );
    assert_eq!(
        runtime_request(Effect::Delete("Leaf".into()), None),
        Some(RuntimeRequest::Eval("DELETE Leaf;".into()))
    );
    let draft = Draft {
        original: "old".into(),
        text: "body".into(),
        target: Some(EditTarget {
            node_id: Some(NodeId::new(1).unwrap()),
            base_revision: Some(Revision::new(2).unwrap()),
        }),
        symbol: Some("Leaf".into()),
    };
    assert_eq!(
        runtime_request(Effect::SaveFragment(draft.clone()), Some("ignored")),
        Some(RuntimeRequest::EditFragment { source: "FRAGMENT Leaf;".into(), draft })
    );
}

#[test]
fn dirty_draft_cancel_requires_confirmation() {
    let model = Model {
        mode: Mode::FragmentEdit,
        draft: Some(Draft { original: "old".into(), text: "new".into(), ..Default::default() }),
        ..Model::default()
    };
    let (model, effects) = update(model, UiAction::Cancel);
    assert_eq!(model.mode, Mode::Confirm(Confirmation::DiscardFragmentDraft));
    assert!(model.draft.is_some());
    assert!(effects.is_empty());
}

#[test]
fn resize_clamps_scroll_and_selection() {
    let mut model = Model::new(140, 40);
    model.catalog = (0..10).map(|n| n.to_string()).collect();
    model.selected = Some(99);
    model.scroll = 99;
    let (model, _) = update(model, UiAction::Resize { width: 2, height: 1 });
    assert_eq!(model.selected, Some(9));
    assert!(model.scroll <= 9);
    assert_eq!(model.layout_class, LayoutClass::Focused);
}

#[test]
fn fragment_editor_uses_cursor_and_undo_not_append_only_text() {
    let mut model = Model { mode: Mode::FragmentEdit, ..Model::default() };
    model.set_draft("ab".into(), "ab".into());
    let (model, _) = update(model, UiAction::MoveEditorCursor(EditorMove::Right));
    let (model, _) = update(model, UiAction::InsertText("X".into()));
    assert_eq!(model.draft.as_ref().unwrap().text, "aXb");
    let (model, _) = update(model, UiAction::UndoEditor);
    assert_eq!(model.draft.as_ref().unwrap().text, "ab");
}

#[test]
fn search_changes_request_incremental_results_and_paste_does_not_submit() {
    let (model, _) = update(Model::default(), UiAction::StartSearch);
    let (model, effects) = update(model, UiAction::InsertText("needle\ntext".into()));
    assert_eq!(model.mode, Mode::Search);
    assert_eq!(model.input, "needle\ntext");
    assert_eq!(effects, vec![Effect::Search("needle\ntext".into())]);
}

#[test]
fn preview_scroll_is_remembered_per_tab() {
    let model = Model { focus: Pane::Preview, ..Model::default() };
    let (model, _) = update(model, UiAction::ScrollPane(4));
    let (model, _) = update(model, UiAction::SelectPreview(PreviewTab::Xml));
    let (model, _) = update(model, UiAction::ScrollPane(2));
    assert_eq!(model.preview_scroll, [4, 2, 0, 0]);
}

#[test]
fn fragment_find_uses_textarea_search_and_returns_to_editor() {
    let mut model = Model { mode: Mode::FragmentEdit, ..Model::default() };
    model.set_draft("one two one".into(), "one two one".into());
    let (model, _) = update(model, UiAction::StartEditorFind);
    let (model, _) = update(model, UiAction::InsertText("one".into()));
    let before = model.editor.as_ref().unwrap().textarea().area.cursor();
    let (model, _) = update(model, UiAction::FindNext);
    assert_ne!(model.editor.as_ref().unwrap().textarea().area.cursor(), before);
    let (model, _) = update(model, UiAction::Cancel);
    assert_eq!(model.mode, Mode::FragmentEdit);
    assert!(model.draft.is_some());
}

#[test]
fn external_change_check_is_an_explicit_effect() {
    let (model, effects) = update(Model::default(), UiAction::CheckExternalChanges);
    assert_eq!(effects, vec![Effect::CheckExternalChanges]);
    assert_eq!(model.mode, Mode::Browse);
}

fn key(code: KeyCode) -> InputEvent {
    InputEvent::Key { key: KeyInput { code, control: false, shift: false }, active: true }
}

#[test]
fn release_is_ignored_and_repeat_is_accepted() {
    let mapper = InputMapper::new();
    assert_eq!(
        mapper.map(
            InputEvent::Key {
                key: KeyInput { code: KeyCode::Char('j'), control: false, shift: false },
                active: false
            },
            Mode::Browse
        ),
        None
    );
    assert_eq!(
        mapper.map(key(KeyCode::Char('j')), Mode::Browse),
        Some(UiAction::MoveSelection(MoveDirection::Next))
    );
}

#[test]
fn focus_gain_checks_external_changes_immediately() {
    assert_eq!(
        InputMapper::new().map(InputEvent::FocusGained, Mode::Browse),
        Some(UiAction::CheckExternalChanges)
    );
    assert_eq!(InputMapper::new().map(InputEvent::FocusLost, Mode::Browse), Some(UiAction::Noop));
}

#[test]
fn paste_inserts_but_never_submits() {
    let mapper = InputMapper::new();
    assert_eq!(
        mapper.map(InputEvent::Paste("x\ny".into()), Mode::Command),
        Some(UiAction::InsertText("x\ny".into()))
    );
}

#[test]
fn mouse_and_keyboard_have_action_parity() {
    let mut mapper = InputMapper::new();
    mapper.set_regions(vec![HitRegion { rect: Rect::new(0, 0, 4, 1), target: HitTarget::OpenSelected }]);
    let mouse = InputEvent::Mouse(MouseInput { kind: MouseKind::LeftDown, column: 1, row: 0 });
    assert_eq!(mapper.map(mouse, Mode::Browse), mapper.map(key(KeyCode::Enter), Mode::Browse));
}

#[test]
fn specific_row_target_wins_over_its_parent_pane() {
    let mut mapper = InputMapper::new();
    mapper.set_regions(vec![
        HitRegion { rect: Rect::new(1, 1, 8, 1), target: HitTarget::Node(4) },
        HitRegion { rect: Rect::new(0, 0, 10, 10), target: HitTarget::Pane(Pane::Catalog) },
    ]);
    let mouse = InputEvent::Mouse(MouseInput { kind: MouseKind::LeftDown, column: 2, row: 1 });
    assert_eq!(mapper.map(mouse, Mode::Browse), Some(UiAction::SelectNode(4)));
}

#[test]
fn three_pane_layout_splits_the_content_row() {
    let layout = Layout::compute(Rect::new(0, 0, 150, 40));
    assert_eq!(layout.class, LayoutClass::ThreePane);
    assert_eq!(layout.status, Rect::new(0, 39, 150, 1));
    assert_eq!(layout.catalog, Some(Rect::new(0, 0, 51, 39)));
    assert_eq!(layout.preview, Some(Rect::new(51, 0, 66, 39)));
    assert_eq!(layout.metadata, Some(Rect::new(117, 0, 33, 39)));
    let focused = Layout::compute(Rect::new(0, 0, 40, 10));
    assert_eq!(focused.class, LayoutClass::Focused);
    assert_eq!(focused.catalog, Some(Rect::new(0, 0, 40, 9)));
    assert!(focused.preview.is_none());
}

#[test]
fn every_action_keeps_the_selection_inside_the_catalog() {
    let mut model = Model::new(80, 24);
    model.catalog = vec!["A".into(), "B".into()];
    model.selected = Some(1);
    let actions = vec![
        UiAction::MoveSelection(MoveDirection::Next),
        UiAction::MoveSelection(MoveDirection::Previous),
        UiAction::SelectNode(7),
        UiAction::Resize { width: 20, height: 5 },
        UiAction::Cancel,
        UiAction::Submit,
    ];
    for action in actions {
        let (next, _) = update(model, action);
        assert!(next.selected.map_or(true, |s| s < next.catalog.len()));
        model = next;
    }
}

#[test]
fn only_changing_requests_refresh_the_catalog() {
    assert!(!promptr::tui::request::refreshes_catalog(&RuntimeRequest::Eval("  PRINT Leaf;".into())));
    assert!(!promptr::tui::request::refreshes_catalog(&RuntimeRequest::Eval("SEARCH \"x\";".into())));
    assert!(promptr::tui::request::refreshes_catalog(&RuntimeRequest::Eval("DELETE Leaf;".into())));
    assert!(promptr::tui::request::refreshes_catalog(&RuntimeRequest::Eval("PRINTX;".into())));
    assert!(!promptr::tui::request::refreshes_catalog(&RuntimeRequest::Exit));
}

#[test]
fn failed_saves_restore_original_and_dirty_drafts() {
    let mut fragment = Model { mode: Mode::Browse, ..Model::default() };
    fragment.draft = Some(Draft { original: "old".into(), text: "new".into(), ..Default::default() });
    promptr::tui::model::restore_fragment_draft(&mut fragment, "new".into());
    assert_eq!(fragment.mode, Mode::FragmentEdit);
    assert_eq!(fragment.draft.as_ref().unwrap().original, "old");
    assert!(fragment.draft.as_ref().unwrap().is_dirty());

    let mut metadata = Model { mode: Mode::Browse, ..Model::default() };
    metadata.draft = Some(Draft { original: "before".into(), text: "after".into(), ..Default::default() });
    promptr::tui::model::restore_metadata_draft(&mut metadata, "after".into());
    assert_eq!(metadata.mode, Mode::MetadataEdit);
    assert_eq!(metadata.draft.as_ref().unwrap().original, "before");
    assert!(metadata.draft.as_ref().unwrap().is_dirty());
}

fn listed(value: i64, symbol: &str, description: Option<&str>) -> promptr::application::value::NodeView {
    promptr::application::value::NodeView {
        id: NodeId::new(value).unwrap(),
        symbol: promptr::domain::Symbol::new(symbol).unwrap(),
        kind: promptr::domain::NodeKind::Fragment,
        revision: Revision::new(3).unwrap(),
        children: Vec::new(),
        byte_size: Some(1),
        metadata: promptr::domain::Metadata::new(description.map(|d| d.to_string()), Vec::new()),
    }
}

#[test]
fn loaded_metadata_becomes_the_draft_with_its_identity() {
    let mut model = Model::new(120, 40);
    model.mode = Mode::MetadataEdit;
    promptr::tui::model::load_metadata_draft(&mut model, &listed(7, "Alpha", Some("about")));
    let draft = model.draft.clone().unwrap();
    assert_eq!(draft.original, "about");
    assert_eq!(draft.text, "about");
    assert_eq!(draft.symbol.as_deref(), Some("Alpha"));
    assert_eq!(draft.target, Some(EditTarget { node_id: Some(NodeId::new(7).unwrap()), base_revision: Some(Revision::new(3).unwrap()) }));
    assert!(model.editor.is_none());
    promptr::tui::model::load_metadata_draft(&mut model, &listed(8, "Beta", None));
    assert_eq!(model.draft.clone().unwrap().text, "");
    promptr::tui::model::finish_saved_edit(&mut model);
    assert!(model.draft.is_none());
    assert!(model.editor.is_none());
}

#[test]
fn a_listing_keeps_the_preferred_symbol_selected() {
    let mut model = Model::new(120, 40);
    model.scroll = 9;
    let nodes = vec![listed(1, "Alpha", None), listed(2, "Beta", None), listed(3, "Gamma", None)];
    promptr::tui::model::apply_catalog(&mut model, &nodes, Some("Gamma"));
    assert_eq!(model.catalog, vec!["Alpha".to_string(), "Beta".to_string(), "Gamma".to_string()]);
    assert_eq!(model.selected, Some(2));
    assert_eq!(model.scroll, 2);
    promptr::tui::model::apply_catalog(&mut model, &nodes, Some("Missing"));
    assert_eq!(model.selected, Some(0));
    promptr::tui::model::apply_catalog(&mut model, &Vec::new(), None);
    assert_eq!(model.selected, None);
    assert_eq!(model.scroll, 0);
}

#[test]
fn only_a_changed_known_token_means_an_external_commit() {
    assert!(token_changed(Some(1), Some(2)));
    assert!(!token_changed(Some(2), Some(2)));
    assert!(!token_changed(None, Some(2)));
    assert!(!token_changed(Some(1), None));
}

#[test]
fn fragment_xml_gives_back_the_editable_text() {
    let text = promptr::tui::results::fragment_draft_text("Alpha", "<Alpha>a &lt;b&gt; &amp;lt; c</Alpha>\n").unwrap();
    assert_eq!(text, "a <b> &lt; c");
    assert_eq!(promptr::tui::results::fragment_draft_text("Alpha", "<Alpha></Alpha>\n").unwrap(), "");
    let err = promptr::tui::results::fragment_draft_text("Alpha", "<Beta>x</Beta>\n").unwrap_err();
    assert_eq!(err.code, "E_TUI_VALUE");
    assert_eq!(err.message, "fragment XML did not match its selected symbol");
    assert!(promptr::tui::results::fragment_draft_text("Alpha", "<Alpha>x</Alpha>").is_err());
}

#[test]
fn search_hits_become_the_rows_with_the_first_selected() {
    let mut model = Model::new(120, 40);
    model.scroll = 4;
    let hit = |value: i64, symbol: &str| promptr::domain::SearchHit {
        node_id: NodeId::new(value).unwrap(),
        symbol: promptr::domain::Symbol::new(symbol).unwrap(),
        score: 1,
        occurrence_count: 1,
    };
    promptr::tui::model::apply_search_hits(&mut model, &vec![hit(2, "Beta"), hit(1, "Alpha")]);
    assert_eq!(model.catalog, vec!["Beta".to_string(), "Alpha".to_string()]);
    assert_eq!(model.selected, Some(0));
    assert_eq!(model.scroll, 0);
    promptr::tui::model::apply_search_hits(&mut model, &Vec::new());
    assert!(model.catalog.is_empty());
    assert_eq!(model.selected, None);
}
