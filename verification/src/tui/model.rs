//! The TUI state and its pure reducer: an action turns a model into the next model and the
//! effects the host must carry out.

use vstd::prelude::*;

use super::action::{MoveDirection, UiAction};
use super::editor_state::{
    backspace_changes, cursor_after_backspace, cursor_after_insert, found_cursor, insert_changes, inserted_pieces, join_lines,
    lines_after_backspace, moved_cursor, lines_after_insert, recorded, split_lines, EditStep, EditorState,
};
use super::layout::{class_for, layout_of, sat_sub, LayoutClass, Rect};
use crate::application::value::NodeView;
use crate::domain::{NodeId, Revision, SearchHit};
use crate::editor::EditTarget;

verus! {

/// A pane of the screen.
#[derive(Debug, Clone, Copy, PartialEq, Eq)]
pub enum Pane {
    /// Node list.
    Catalog,
    /// Preview of the selected node.
    Preview,
    /// Metadata of the selected node.
    Metadata,
}

/// A tab of the preview pane.
#[derive(Debug, Clone, Copy, PartialEq, Eq)]
pub enum PreviewTab {
    /// Occurrence tree.
    Tree,
    /// Canonical XML.
    Xml,
    /// Fragment content.
    Content,
    /// Metadata.
    Metadata,
}

/// Position of a tab: tree 0, XML 1, content 2, metadata 3.
pub open spec fn tab_index(tab: PreviewTab) -> nat {
    match tab {
        PreviewTab::Tree => 0,
        PreviewTab::Xml => 1,
        PreviewTab::Content => 2,
        PreviewTab::Metadata => 3,
    }
}

/// The tab at a position modulo 4.
pub open spec fn tab_at(index: nat) -> PreviewTab {
    if index % 4 == 0 {
        PreviewTab::Tree
    } else if index % 4 == 1 {
        PreviewTab::Xml
    } else if index % 4 == 2 {
        PreviewTab::Content
    } else {
        PreviewTab::Metadata
    }
}

/// The next or previous tab, wrapping around.
pub open spec fn cycled(tab: PreviewTab, direction: MoveDirection) -> PreviewTab {
    match direction {
        MoveDirection::Next => tab_at(tab_index(tab) + 1),
        MoveDirection::Previous => tab_at(tab_index(tab) + 3),
    }
}

impl PreviewTab {
    /// The position of the tab.
    pub fn index(self) -> (i: usize)
        ensures
            i == tab_index(self),
    {
        match self {
            PreviewTab::Tree => 0,
            PreviewTab::Xml => 1,
            PreviewTab::Content => 2,
            PreviewTab::Metadata => 3,
        }
    }

    /// The next or previous tab, wrapping around.
    pub fn cycle(self, direction: MoveDirection) -> (t: Self)
        ensures
            t == cycled(self, direction),
    {
        let index = self.index();
        let next = match direction {
            MoveDirection::Next => (index + 1) % 4,
            MoveDirection::Previous => (index + 3) % 4,
        };
        if next == 0 {
            PreviewTab::Tree
        } else if next == 1 {
            PreviewTab::Xml
        } else if next == 2 {
            PreviewTab::Content
        } else {
            PreviewTab::Metadata
        }
    }
}

/// What a confirmation is about.
#[derive(Debug, Clone, Copy, PartialEq, Eq)]
pub enum Confirmation {
    /// Throw away an edited fragment.
    DiscardFragmentDraft,
    /// Throw away edited metadata.
    DiscardMetadataDraft,
    /// Delete the selected node.
    DeleteNode,
    /// Quit with an unsaved draft.
    QuitWithDraft,
}

/// The input mode.
#[derive(Debug, Clone, Copy, PartialEq, Eq)]
pub enum Mode {
    /// Browsing the catalog.
    Browse,
    /// Typing a command.
    Command,
    /// Typing a search.
    Search,
    /// Editing a fragment.
    FragmentEdit,
    /// Finding text in the fragment editor.
    FragmentFind,
    /// Editing metadata.
    MetadataEdit,
    /// Waiting for an answer.
    Confirm(Confirmation),
    /// Showing help.
    Help,
}

/// An edit in progress.
#[derive(Debug, PartialEq, Eq, Default)]
pub struct Draft {
    /// Text when the edit started.
    pub original: String,
    /// Current text.
    pub text: String,
    /// Persistent target of the edit.
    pub target: Option<EditTarget>,
    /// Symbol of the edited node.
    pub symbol: Option<String>,
}

/// A draft as values.
pub struct DraftView {
    /// Text when the edit started.
    pub original: Seq<char>,
    /// Current text.
    pub text: Seq<char>,
    /// Persistent target of the edit.
    pub target: Option<EditTarget>,
    /// Symbol of the edited node.
    pub symbol: Option<Seq<char>>,
}

/// The view of an optional string.
pub open spec fn opt_text(s: Option<String>) -> Option<Seq<char>> {
    match s {
        Some(t) => Some(t@),
        None => None,
    }
}

impl View for Draft {
    type V = DraftView;

    open spec fn view(&self) -> DraftView {
        DraftView {
            original: self.original@,
            text: self.text@,
            target: self.target,
            symbol: opt_text(self.symbol),
        }
    }
}

impl Clone for Draft {
    fn clone(&self) -> (c: Self)
        ensures
            c@ == self@,
    {
        Draft {
            original: self.original.clone(),
            text: self.text.clone(),
            target: self.target,
            symbol: match &self.symbol {
                Some(s) => Some(s.clone()),
                None => None,
            },
        }
    }
}

impl Draft {
    /// An empty draft, in specifications.
    pub open spec fn spec_empty() -> DraftView {
        DraftView { original: seq![], text: seq![], target: None, symbol: None }
    }

    /// An empty draft.
    pub fn empty() -> (d: Self)
        ensures
            d@ == Draft::spec_empty(),
    {
        Draft { original: String::new(), text: String::new(), target: None, symbol: None }
    }

    /// Whether the text changed.
    pub fn is_dirty(&self) -> (b: bool)
        ensures
            b == (self.text@ != self.original@),
    {
        self.text != self.original
    }
}

/// Work the host must do for the reducer.
#[derive(Debug, PartialEq, Eq)]
pub enum Effect {
    /// Run a command.
    Execute(String),
    /// Run a search.
    Search(String),
    /// Save an edited fragment.
    SaveFragment(Draft),
    /// Load a fragment into the editor.
    LoadFragmentDraft(String),
    /// Load metadata into the editor.
    LoadMetadataDraft(String),
    /// Save edited metadata.
    SaveMetadata(Draft),
    /// Delete a node.
    Delete(String),
    /// Load a preview tab.
    LoadPreview {
        /// Node symbol.
        symbol: String,
        /// Tab to load.
        tab: PreviewTab,
    },
    /// Copy a node's canonical XML.
    CopyCanonicalXml(String),
    /// Look for changes made elsewhere.
    CheckExternalChanges,
    /// Leave.
    Exit,
}

/// An effect as values.
pub enum EffectView {
    /// Run a command.
    Execute(Seq<char>),
    /// Run a search.
    Search(Seq<char>),
    /// Save an edited fragment.
    SaveFragment(DraftView),
    /// Load a fragment into the editor.
    LoadFragmentDraft(Seq<char>),
    /// Load metadata into the editor.
    LoadMetadataDraft(Seq<char>),
    /// Save edited metadata.
    SaveMetadata(DraftView),
    /// Delete a node.
    Delete(Seq<char>),
    /// Load a preview tab.
    LoadPreview { symbol: Seq<char>, tab: PreviewTab },
    /// Copy a node's canonical XML.
    CopyCanonicalXml(Seq<char>),
    /// Look for changes made elsewhere.
    CheckExternalChanges,
    /// Leave.
    Exit,
}

impl View for Effect {
    type V = EffectView;

    open spec fn view(&self) -> EffectView {
        match self {
            Effect::Execute(s) => EffectView::Execute(s@),
            Effect::Search(s) => EffectView::Search(s@),
            Effect::SaveFragment(d) => EffectView::SaveFragment(d@),
            Effect::LoadFragmentDraft(s) => EffectView::LoadFragmentDraft(s@),
            Effect::LoadMetadataDraft(s) => EffectView::LoadMetadataDraft(s@),
            Effect::SaveMetadata(d) => EffectView::SaveMetadata(d@),
            Effect::Delete(s) => EffectView::Delete(s@),
            Effect::LoadPreview { symbol, tab } => EffectView::LoadPreview { symbol: symbol@, tab: *tab },
            Effect::CopyCanonicalXml(s) => EffectView::CopyCanonicalXml(s@),
            Effect::CheckExternalChanges => EffectView::CheckExternalChanges,
            Effect::Exit => EffectView::Exit,
        }
    }
}

/// The views of a list of effects.
pub open spec fn effect_views(effects: Seq<Effect>) -> Seq<EffectView> {
    effects.map_values(|e: Effect| e@)
}

/// The TUI state the reducer works on.
#[derive(Debug)]
pub struct Model {
    /// Input mode.
    pub mode: Mode,
    /// Focused pane.
    pub focus: Pane,
    /// Shown preview tab.
    pub preview_tab: PreviewTab,
    /// Terminal area.
    pub terminal: Rect,
    /// Layout class of the terminal.
    pub layout_class: LayoutClass,
    /// Symbols in list order.
    pub catalog: Vec<String>,
    /// Selected row.
    pub selected: Option<usize>,
    /// First shown row.
    pub scroll: usize,
    /// Command, search or find input.
    pub input: String,
    /// Edit in progress.
    pub draft: Option<Draft>,
    /// Fragment editor.
    pub editor: Option<EditorState>,
    /// Scroll position of each preview tab.
    pub preview_scroll: [usize; 4],
    /// Last seen change token of the store.
    pub change_token: Option<u64>,
    /// Whether the loop should end.
    pub should_quit: bool,
    /// Message for the status line.
    pub notice: Option<String>,
}

/// The fragment editor as values: its starting text, its lines, cursor and search, its edit
/// history, and whether it is well formed (see `EditorState::well_formed`).
pub struct EditorView {
    /// Text the editor started from.
    pub original: Seq<char>,
    /// Lines being edited.
    pub lines: Seq<Seq<char>>,
    /// Cursor: line and column.
    pub cursor: (nat, nat),
    /// Search pattern.
    pub find: Option<Seq<char>>,
    /// Edits that can be undone, oldest first.
    pub undoable: Seq<EditStep>,
    /// Edits that can be redone, next first.
    pub redoable: Seq<EditStep>,
    /// How many edits the history keeps.
    pub limit: nat,
    /// Whether the editor is well formed.
    pub ready: bool,
}

/// An editor as values.
pub open spec fn editor_view(e: EditorState) -> EditorView {
    EditorView {
        original: e.spec_original(),
        lines: e.spec_lines(),
        cursor: e.spec_cursor(),
        find: e.spec_find(),
        undoable: e.spec_undoable(),
        redoable: e.spec_redoable(),
        limit: e.spec_history_limit(),
        ready: e.well_formed(),
    }
}

/// A new editor over a text (see `EditorState::new`).
pub open spec fn fresh_editor(text: Seq<char>) -> EditorView {
    EditorView {
        original: text,
        lines: split_lines(text),
        cursor: (0nat, 0nat),
        find: None,
        undoable: Seq::empty(),
        redoable: Seq::empty(),
        limit: 50,
        ready: true,
    }
}

/// A well-formed editor after inserting text (see `EditorState::insert`).
pub open spec fn after_insert(v: EditorView, text: Seq<char>) -> EditorView {
    let ps = inserted_pieces(text);
    let lines = lines_after_insert(v.lines, v.cursor, ps);
    let cursor = cursor_after_insert(v.cursor, ps);
    if insert_changes(ps) {
        EditorView {
            lines,
            cursor,
            undoable: recorded(v.undoable, v.redoable, v.limit, (v.lines, v.cursor, lines, cursor)),
            redoable: Seq::empty(),
            ..v
        }
    } else {
        EditorView { lines, cursor, ..v }
    }
}

/// A well-formed editor after deleting backwards (see `EditorState::backspace`).
pub open spec fn after_backspace(v: EditorView) -> EditorView {
    let lines = lines_after_backspace(v.lines, v.cursor);
    let cursor = cursor_after_backspace(v.lines, v.cursor);
    if backspace_changes(v.cursor) {
        EditorView {
            lines,
            cursor,
            undoable: recorded(v.undoable, v.redoable, v.limit, (v.lines, v.cursor, lines, cursor)),
            redoable: Seq::empty(),
            ..v
        }
    } else {
        EditorView { lines, cursor, ..v }
    }
}

/// A well-formed editor after an undo (see `EditorState::undo`).
pub open spec fn after_undo(v: EditorView) -> EditorView {
    if v.undoable.len() == 0 {
        v
    } else {
        let e = v.undoable.last();
        EditorView { lines: e.0, cursor: e.1, undoable: v.undoable.drop_last(), redoable: seq![e] + v.redoable, ..v }
    }
}

/// A well-formed editor after a redo (see `EditorState::redo`).
pub open spec fn after_redo(v: EditorView) -> EditorView {
    if v.redoable.len() == 0 {
        v
    } else {
        let e = v.redoable[0];
        EditorView { lines: e.2, cursor: e.3, undoable: v.undoable.push(e), redoable: v.redoable.drop_first(), ..v }
    }
}

/// A well-formed editor whose cursor moved to `cursor`, all else kept.
pub open spec fn moved_to(v: EditorView, cursor: (nat, nat)) -> EditorView {
    EditorView { cursor, ..v }
}

/// The editor after a change: for a well-formed editor what `change` gives, for another one
/// what the editor became (`given`), which its contracts do not fix.
pub open spec fn changed(e: Option<EditorView>, given: Option<EditorView>, change: spec_fn(EditorView) -> EditorView) -> Option<EditorView> {
    match e {
        Some(v) => if v.ready {
            Some(change(v))
        } else {
            given
        },
        None => None,
    }
}

/// The cursor the editor ended at, as given.
pub open spec fn given_cursor(given: Option<EditorView>) -> (nat, nat) {
    match given {
        Some(g) => g.cursor,
        None => (0nat, 0nat),
    }
}

/// The search the editor ended with, as given.
pub open spec fn given_find(given: Option<EditorView>) -> Option<Seq<char>> {
    match given {
        Some(g) => g.find,
        None => None,
    }
}

/// The editor after its search was set to a query: none for an empty query; otherwise what
/// it became (the escaped query, or the old search when the pattern was refused).
pub open spec fn find_set(e: Option<EditorView>, given: Option<EditorView>, query: Seq<char>) -> Option<EditorView> {
    changed(
        e,
        given,
        |v: EditorView| EditorView { find: if query.len() == 0 { None } else { given_find(given) }, ..v },
    )
}

/// The model as values.
pub struct ModelView {
    /// Input mode.
    pub mode: Mode,
    /// Focused pane.
    pub focus: Pane,
    /// Shown preview tab.
    pub preview_tab: PreviewTab,
    /// Terminal area.
    pub terminal: Rect,
    /// Layout class.
    pub layout_class: LayoutClass,
    /// Symbols in list order.
    pub catalog: Seq<Seq<char>>,
    /// Selected row.
    pub selected: Option<usize>,
    /// First shown row.
    pub scroll: usize,
    /// Input text.
    pub input: Seq<char>,
    /// Edit in progress.
    pub draft: Option<DraftView>,
    /// Fragment editor.
    pub editor: Option<EditorView>,
    /// Scroll position of each preview tab.
    pub preview_scroll: Seq<usize>,
    /// Last seen change token.
    pub change_token: Option<u64>,
    /// Whether the loop should end.
    pub should_quit: bool,
    /// Status message.
    pub notice: Option<Seq<char>>,
}

impl View for Model {
    type V = ModelView;

    open spec fn view(&self) -> ModelView {
        ModelView {
            mode: self.mode,
            focus: self.focus,
            preview_tab: self.preview_tab,
            terminal: self.terminal,
            layout_class: self.layout_class,
            catalog: self.catalog@.map_values(|s: String| s@),
            selected: self.selected,
            scroll: self.scroll,
            input: self.input@,
            draft: match self.draft {
                Some(d) => Some(d@),
                None => None,
            },
            editor: match self.editor {
                Some(e) => Some(editor_view(e)),
                None => None,
            },
            preview_scroll: self.preview_scroll@,
            change_token: self.change_token,
            should_quit: self.should_quit,
            notice: opt_text(self.notice),
        }
    }
}

/// Rows of the catalog list: the content height less the border, at least one.
pub open spec fn viewport(terminal: Rect) -> int {
    let rows = sat_sub(layout_of(terminal).content.height as int, 2);
    if rows < 1 {
        1
    } else {
        rows
    }
}

/// The symbol of the selected row, if any.
pub open spec fn selected_symbol_of(m: ModelView) -> Option<Seq<char>> {
    match m.selected {
        Some(i) => if i < m.catalog.len() {
            Some(m.catalog[i as int])
        } else {
            None
        },
        None => None,
    }
}

/// Selection and scroll kept inside the catalog and the viewport: the selection is clamped to
/// the last row, the scroll to the last full page, and the scroll follows the selection.
pub open spec fn clamped(m: ModelView) -> ModelView {
    let len = m.catalog.len() as int;
    let rows = viewport(m.terminal);
    let selected: Option<usize> = if len == 0 {
        None
    } else {
        Some(
            (match m.selected {
                Some(s) => if s < len - 1 {
                    s as int
                } else {
                    len - 1
                },
                None => 0,
            }) as usize,
        )
    };
    let max_scroll = sat_sub(len, rows);
    let s1 = if m.scroll < max_scroll {
        m.scroll as int
    } else {
        max_scroll
    };
    let scroll = match selected {
        None => s1,
        Some(x) => {
            let s2 = if x < s1 {
                x as int
            } else {
                s1
            };
            if x >= s2 + rows {
                x + 1 - rows
            } else {
                s2
            }
        },
    };
    ModelView { selected, scroll: scroll as usize, ..m }
}

/// The preview load for the selected node, if there is one.
pub open spec fn preview_effects(m: ModelView, tab: PreviewTab) -> Seq<EffectView> {
    match selected_symbol_of(m) {
        Some(s) => seq![EffectView::LoadPreview { symbol: s, tab }],
        None => seq![],
    }
}

/// One effect naming the selected node, if there is one.
pub open spec fn selected_effect(m: ModelView, make: spec_fn(Seq<char>) -> EffectView) -> Seq<EffectView> {
    match selected_symbol_of(m) {
        Some(s) => seq![make(s)],
        None => seq![],
    }
}

/// The draft's text replaced by the editor's text, when both exist.
pub open spec fn synced(m: ModelView) -> ModelView {
    match (m.editor, m.draft) {
        (Some(e), Some(d)) => ModelView { draft: Some(DraftView { text: join_lines(e.lines), ..d }), ..m },
        _ => m,
    }
}

/// Whether the draft exists and changed.
pub open spec fn dirty(m: ModelView) -> bool {
    match m.draft {
        Some(d) => d.text != d.original,
        None => false,
    }
}

/// `a + b` capped at `usize::MAX`.
pub open spec fn sat_add_usize(a: int, b: int) -> int {
    if a + b > usize::MAX {
        usize::MAX as int
    } else {
        a + b
    }
}

/// The new scroll position of a pane scrolled by `delta` rows.
pub open spec fn scrolled(position: usize, delta: i16) -> usize {
    if delta < 0 {
        sat_sub(position as int, -delta) as usize
    } else {
        sat_add_usize(position as int, delta as int) as usize
    }
}

/// What an action does to a model: the next model and the effects. The fragment editor
/// changes as its contracts state (see `after_insert`, `after_backspace`, `after_undo`,
/// `after_redo`, `moved_cursor`, `found_cursor`, `find_set`); where they leave a part open
/// (the cursor after a scroll; a refused search pattern) it is taken from `given`, the editor
/// the model ends with.
pub open spec fn step(m: ModelView, a: UiAction, given: Option<EditorView>) -> (ModelView, Seq<EffectView>) {
    match a {
        UiAction::Resize { width, height } => {
            let t = Rect { width, height, ..m.terminal };
            (clamped(ModelView { terminal: t, layout_class: class_for(width, height), ..m }), seq![])
        },
        UiAction::CheckExternalChanges => (m, seq![EffectView::CheckExternalChanges]),
        UiAction::MoveSelection(direction) => {
            if m.mode == Mode::Browse && m.catalog.len() > 0 {
                let current: int = match m.selected {
                    Some(s) => s as int,
                    None => 0,
                };
                let next: int = match direction {
                    MoveDirection::Previous => sat_sub(current, 1),
                    MoveDirection::Next => if current + 1 < m.catalog.len() - 1 {
                        current + 1
                    } else {
                        m.catalog.len() - 1
                    },
                };
                let c = clamped(ModelView { selected: Some(next as usize), ..m });
                (c, preview_effects(c, c.preview_tab))
            } else {
                (m, seq![])
            }
        },
        UiAction::ScrollPane(delta) => {
            if m.mode == Mode::FragmentEdit {
                (
                    synced(ModelView { editor: changed(m.editor, given, |v: EditorView| moved_to(v, given_cursor(given))), ..m }),
                    seq![],
                )
            } else if m.focus == Pane::Preview {
                let i = tab_index(m.preview_tab) as int;
                (ModelView { preview_scroll: m.preview_scroll.update(i, scrolled(m.preview_scroll[i], delta)), ..m }, seq![])
            } else {
                let max = sat_sub(m.catalog.len() as int, viewport(m.terminal));
                let s: int = if delta < 0 {
                    sat_sub(m.scroll as int, -delta)
                } else if sat_add_usize(m.scroll as int, delta as int) < max {
                    sat_add_usize(m.scroll as int, delta as int)
                } else {
                    max
                };
                (ModelView { scroll: s as usize, ..m }, seq![])
            }
        },
        UiAction::FocusPane(pane) => (ModelView { focus: pane, ..m }, seq![]),
        UiAction::SelectNode(index) => {
            if index < m.catalog.len() {
                let c = clamped(ModelView { selected: Some(index), ..m });
                (c, preview_effects(c, c.preview_tab))
            } else {
                (m, seq![])
            }
        },
        UiAction::SelectPreview(tab) => {
            let n = ModelView { preview_tab: tab, ..m };
            (n, preview_effects(n, tab))
        },
        UiAction::CyclePreview(direction) => {
            let n = ModelView { preview_tab: cycled(m.preview_tab, direction), ..m };
            (n, preview_effects(n, n.preview_tab))
        },
        UiAction::StartCommand => (ModelView { mode: Mode::Command, input: seq![], ..m }, seq![]),
        UiAction::StartSearch => (ModelView { mode: Mode::Search, input: seq![], ..m }, seq![]),
        UiAction::StartFragmentEdit => {
            let n = ModelView {
                mode: Mode::FragmentEdit,
                draft: Some(Draft::spec_empty()),
                editor: Some(fresh_editor(seq![])),
                ..m
            };
            (n, selected_effect(m, |s: Seq<char>| EffectView::LoadFragmentDraft(s)))
        },
        UiAction::StartMetadataEdit => {
            let n = ModelView {
                mode: Mode::MetadataEdit,
                draft: match m.draft {
                    Some(d) => Some(d),
                    None => Some(Draft::spec_empty()),
                },
                ..m
            };
            (n, selected_effect(m, |s: Seq<char>| EffectView::LoadMetadataDraft(s)))
        },
        UiAction::StartRename => match selected_symbol_of(m) {
            Some(s) => (ModelView { mode: Mode::Command, input: "RENAME "@ + s + " TO "@, ..m }, seq![]),
            None => (m, seq![]),
        },
        UiAction::RequestDelete => match selected_symbol_of(m) {
            Some(_) => (ModelView { mode: Mode::Confirm(Confirmation::DeleteNode), ..m }, seq![]),
            None => (m, seq![]),
        },
        UiAction::CopyCanonicalXml => (m, selected_effect(m, |s: Seq<char>| EffectView::CopyCanonicalXml(s))),
        UiAction::InsertText(text) => step_insert(m, text@, given),
        UiAction::DeleteBackward => step_delete(m, given),
        UiAction::Submit => step_submit(m),
        UiAction::Cancel => step_cancel(m),
        UiAction::Confirm => step_confirm(m),
        UiAction::Reject => (
            match m.mode {
                Mode::Confirm(Confirmation::DiscardFragmentDraft) => ModelView { mode: Mode::FragmentEdit, ..m },
                Mode::Confirm(Confirmation::DiscardMetadataDraft) => ModelView { mode: Mode::MetadataEdit, ..m },
                Mode::Confirm(_) => ModelView { mode: Mode::Browse, ..m },
                _ => m,
            },
            seq![],
        ),
        UiAction::ToggleHelp => (
            ModelView {
                mode: if m.mode == Mode::Help {
                    Mode::Browse
                } else {
                    Mode::Help
                },
                ..m
            },
            seq![],
        ),
        UiAction::Quit => {
            if dirty(m) {
                (ModelView { mode: Mode::Confirm(Confirmation::QuitWithDraft), ..m }, seq![])
            } else {
                (ModelView { should_quit: true, ..m }, seq![EffectView::Exit])
            }
        },
        UiAction::OpenSelected => (m, preview_effects(m, m.preview_tab)),
        UiAction::MoveEditorCursor(movement) => {
            if m.mode == Mode::FragmentEdit {
                (
                    synced(
                        ModelView {
                            editor: changed(m.editor, given, |v: EditorView| moved_to(v, moved_cursor(v.lines, v.cursor, movement))),
                            ..m
                        },
                    ),
                    seq![],
                )
            } else {
                (m, seq![])
            }
        },
        UiAction::UndoEditor => {
            if m.mode == Mode::FragmentEdit {
                (synced(ModelView { editor: changed(m.editor, given, |v: EditorView| after_undo(v)), ..m }), seq![])
            } else {
                (m, seq![])
            }
        },
        UiAction::RedoEditor => {
            if m.mode == Mode::FragmentEdit {
                (synced(ModelView { editor: changed(m.editor, given, |v: EditorView| after_redo(v)), ..m }), seq![])
            } else {
                (m, seq![])
            }
        },
        UiAction::StartEditorFind => {
            if m.mode == Mode::FragmentEdit {
                (ModelView { mode: Mode::FragmentFind, input: seq![], ..m }, seq![])
            } else {
                (m, seq![])
            }
        },
        UiAction::FindNext => {
            if m.mode == Mode::FragmentFind {
                (
                    ModelView {
                        editor: changed(
                            m.editor,
                            given,
                            |v: EditorView| moved_to(v, found_cursor(v.lines, v.cursor, v.find)),
                        ),
                        ..m
                    },
                    seq![],
                )
            } else {
                (m, seq![])
            }
        },
        UiAction::Noop => (m, seq![]),
    }
}

/// Inserting text: into the fragment editor, the metadata draft, or the input line (a search
/// asks for results on each change).
pub open spec fn step_insert(m: ModelView, text: Seq<char>, given: Option<EditorView>) -> (ModelView, Seq<EffectView>) {
    match m.mode {
        Mode::FragmentEdit => (
            synced(
                ModelView {
                    editor: match m.editor {
                        None => Some(after_insert(fresh_editor(seq![]), text)),
                        Some(_) => changed(m.editor, given, |v: EditorView| after_insert(v, text)),
                    },
                    ..m
                },
            ),
            seq![],
        ),
        Mode::MetadataEdit => {
            let d = match m.draft {
                Some(d) => d,
                None => Draft::spec_empty(),
            };
            (ModelView { draft: Some(DraftView { text: d.text + text, ..d }), ..m }, seq![])
        },
        Mode::Command | Mode::Search | Mode::FragmentFind => {
            let input = m.input + text;
            (
                ModelView {
                    input,
                    editor: if m.mode == Mode::FragmentFind {
                        find_set(m.editor, given, input)
                    } else {
                        m.editor
                    },
                    ..m
                },
                if m.mode == Mode::Search {
                    seq![EffectView::Search(input)]
                } else {
                    seq![]
                },
            )
        },
        _ => (m, seq![]),
    }
}

/// Deleting the last character of the editor, the metadata draft or the input line.
pub open spec fn step_delete(m: ModelView, given: Option<EditorView>) -> (ModelView, Seq<EffectView>) {
    match m.mode {
        Mode::FragmentEdit => (synced(ModelView { editor: changed(m.editor, given, |v: EditorView| after_backspace(v)), ..m }), seq![]),
        Mode::MetadataEdit => (
            match m.draft {
                Some(d) => ModelView {
                    draft: Some(
                        DraftView {
                            text: if d.text.len() > 0 {
                                d.text.drop_last()
                            } else {
                                d.text
                            },
                            ..d
                        },
                    ),
                    ..m
                },
                None => m,
            },
            seq![],
        ),
        Mode::Command | Mode::Search | Mode::FragmentFind => {
            let input = if m.input.len() > 0 {
                m.input.drop_last()
            } else {
                m.input
            };
            (
                ModelView {
                    input,
                    editor: if m.mode == Mode::FragmentFind {
                        find_set(m.editor, given, input)
                    } else {
                        m.editor
                    },
                    ..m
                },
                if m.mode == Mode::Search {
                    seq![EffectView::Search(input)]
                } else {
                    seq![]
                },
            )
        },
        _ => (m, seq![]),
    }
}

/// Submitting: a non-empty command or search runs, an edit is saved.
pub open spec fn step_submit(m: ModelView) -> (ModelView, Seq<EffectView>) {
    match m.mode {
        Mode::Command => if m.input.len() > 0 {
            (ModelView { mode: Mode::Browse, input: seq![], ..m }, seq![EffectView::Execute(m.input)])
        } else {
            (m, seq![])
        },
        Mode::Search => if m.input.len() > 0 {
            (ModelView { mode: Mode::Browse, input: seq![], ..m }, seq![EffectView::Search(m.input)])
        } else {
            (m, seq![])
        },
        Mode::FragmentEdit => {
            let s = synced(m);
            match s.draft {
                Some(d) => (ModelView { mode: Mode::Browse, ..s }, seq![EffectView::SaveFragment(d)]),
                None => (s, seq![]),
            }
        },
        Mode::MetadataEdit => match m.draft {
            Some(d) => (ModelView { mode: Mode::Browse, ..m }, seq![EffectView::SaveMetadata(d)]),
            None => (m, seq![]),
        },
        _ => (m, seq![]),
    }
}

/// Cancelling: a changed draft asks first; otherwise the mode is left.
pub open spec fn step_cancel(m: ModelView) -> (ModelView, Seq<EffectView>) {
    (
        match m.mode {
            Mode::FragmentEdit => if dirty(m) {
                ModelView { mode: Mode::Confirm(Confirmation::DiscardFragmentDraft), ..m }
            } else {
                ModelView { draft: None, editor: None, mode: Mode::Browse, ..m }
            },
            Mode::MetadataEdit => if dirty(m) {
                ModelView { mode: Mode::Confirm(Confirmation::DiscardMetadataDraft), ..m }
            } else {
                ModelView { draft: None, editor: None, mode: Mode::Browse, ..m }
            },
            Mode::FragmentFind => ModelView { input: seq![], mode: Mode::FragmentEdit, ..m },
            Mode::Confirm(_) | Mode::Command | Mode::Search | Mode::Help => ModelView {
                input: seq![],
                mode: Mode::Browse,
                ..m
            },
            Mode::Browse => m,
        },
        seq![],
    )
}

/// Confirming: discard the draft, delete the selected node, or quit.
pub open spec fn step_confirm(m: ModelView) -> (ModelView, Seq<EffectView>) {
    match m.mode {
        Mode::Confirm(Confirmation::DiscardFragmentDraft) | Mode::Confirm(
            Confirmation::DiscardMetadataDraft,
        ) => (ModelView { draft: None, editor: None, mode: Mode::Browse, ..m }, seq![]),
        Mode::Confirm(Confirmation::DeleteNode) => (
            ModelView { mode: Mode::Browse, ..m },
            selected_effect(m, |s: Seq<char>| EffectView::Delete(s)),
        ),
        Mode::Confirm(Confirmation::QuitWithDraft) => (ModelView { should_quit: true, ..m }, seq![EffectView::Exit]),
        _ => (m, seq![]),
    }
}

/// The model a new terminal of a given size starts with.
pub open spec fn initial(width: u16, height: u16) -> ModelView {
    ModelView {
        mode: Mode::Browse,
        focus: Pane::Catalog,
        preview_tab: PreviewTab::Tree,
        terminal: Rect { x: 0, y: 0, width, height },
        layout_class: class_for(width, height),
        catalog: seq![],
        selected: None,
        scroll: 0,
        input: seq![],
        draft: None,
        editor: None,
        preview_scroll: seq![0usize, 0usize, 0usize, 0usize],
        change_token: None,
        should_quit: false,
        notice: None,
    }
}

impl Model {
    /// A browsing model for a terminal of a given size, with an empty catalog.
    pub fn new(width: u16, height: u16) -> (m: Self)
        ensures
            m@ == initial(width, height),
    {
        let m = Model {
            mode: Mode::Browse,
            focus: Pane::Catalog,
            preview_tab: PreviewTab::Tree,
            terminal: Rect::new(0, 0, width, height),
            layout_class: LayoutClass::for_size(width, height),
            catalog: Vec::new(),
            selected: None,
            scroll: 0,
            input: String::new(),
            draft: None,
            editor: None,
            preview_scroll: [0, 0, 0, 0],
            change_token: None,
            should_quit: false,
            notice: None,
        };
        proof {
            assert(m@.catalog =~= Seq::<Seq<char>>::empty());
            assert(m@.preview_scroll =~= seq![0usize, 0usize, 0usize, 0usize]);
        }
        m
    }

    /// Starts a draft; in fragment editing, the editor starts from its text.
    pub fn set_draft(&mut self, original: String, text: String)
        ensures
            final(self)@ == (ModelView {
                draft: Some(DraftView { original: original@, text: text@, target: None, symbol: None }),
                editor: if old(self).mode == Mode::FragmentEdit {
                    Some(fresh_editor(text@))
                } else {
                    None
                },
                ..old(self)@
            }),
    {
        let editor = if matches!(self.mode, Mode::FragmentEdit) {
            Some(EditorState::new(text.clone()))
        } else {
            None
        };
        self.draft = Some(Draft { original, text, target: None, symbol: None });
        self.editor = editor;
    }

    /// Copies the editor's text into the draft.
    pub fn sync_draft(&mut self)
        ensures
            final(self)@ == synced(old(self)@),
    {
        match &self.editor {
            Some(editor) => {
                let text = editor.text();
                match &mut self.draft {
                    Some(d) => {
                        d.text = text;
                    },
                    None => {},
                }
            },
            None => {},
        }
    }

    /// The symbol of the selected row.
    pub fn selected_symbol(&self) -> (r: Option<&str>)
        ensures
            match r {
                Some(s) => selected_symbol_of(self@) == Some(s@),
                None => selected_symbol_of(self@).is_none(),
            },
    {
        match self.selected {
            Some(i) => {
                if i < self.catalog.len() {
                    Some(self.catalog[i].as_str())
                } else {
                    None
                }
            },
            None => None,
        }
    }

    /// Rows of the catalog list.
    pub fn viewport_rows(&self) -> (r: usize)
        ensures
            r == viewport(self.terminal),
    {
        let status: u16 = if self.terminal.height == 0 { 0 } else { 1 };
        let content = self.terminal.height - status;
        let rows = content.saturating_sub(2);
        if rows < 1 {
            1
        } else {
            rows as usize
        }
    }

    /// Keeps selection and scroll inside the catalog and the viewport.
    pub fn clamp_navigation(&mut self)
        ensures
            final(self)@ == clamped(old(self)@),
    {
        let len = self.catalog.len();
        self.selected = if len == 0 {
            None
        } else {
            let s = match self.selected {
                Some(s) => s,
                None => 0,
            };
            Some(if s < len - 1 { s } else { len - 1 })
        };
        let rows = self.viewport_rows();
        let max_scroll = len.saturating_sub(rows);
        if self.scroll > max_scroll {
            self.scroll = max_scroll;
        }
        match self.selected {
            Some(selected) => {
                if selected < self.scroll {
                    self.scroll = selected;
                }
                if selected >= self.scroll && selected - self.scroll >= rows {
                    self.scroll = selected + 1 - rows;
                }
            },
            None => {},
        }
    }
}

impl Default for Model {
    fn default() -> (m: Self)
        ensures
            m@ == initial(80, 24),
    {
        Model::new(80, 24)
    }
}

/// A one-element effect list.
fn one(e: Effect) -> (v: Vec<Effect>)
    ensures
        effect_views(v@) == seq![e@],
{
    let mut v: Vec<Effect> = Vec::new();
    v.push(e);
    proof {
        assert(effect_views(v@) =~= seq![e@]);
    }
    v
}

/// No effect.
fn none() -> (v: Vec<Effect>)
    ensures
        effect_views(v@) == Seq::<EffectView>::empty(),
{
    let v: Vec<Effect> = Vec::new();
    proof {
        assert(effect_views(v@) =~= Seq::<EffectView>::empty());
    }
    v
}

/// The preview load for the selected node, if any.
fn preview_load(model: &Model, tab: PreviewTab) -> (v: Vec<Effect>)
    ensures
        effect_views(v@) == preview_effects(model@, tab),
{
    match model.selected_symbol() {
        Some(s) => one(Effect::LoadPreview { symbol: s.to_owned(), tab }),
        None => none(),
    }
}

/// Takes the input line, leaving it empty.
fn take_input(model: &mut Model) -> (s: String)
    ensures
        s@ == old(model).input@,
        final(model)@ == (ModelView { input: seq![], ..old(model)@ }),
{
    let mut taken = String::new();
    std::mem::swap(&mut taken, &mut model.input);
    taken
}

/// Inserting text (see `step_insert`).
fn on_insert(mut model: Model, text: &str) -> (r: (Model, Vec<Effect>))
    ensures
        (r.0@, effect_views(r.1@)) == step_insert(model@, text@, r.0@.editor),
{
    match model.mode {
        Mode::FragmentEdit => {
            let mut editor = match model.editor {
                Some(e) => e,
                None => EditorState::new(String::new()),
            };
            editor.insert(text);
            model.editor = Some(editor);
            model.sync_draft();
            (model, none())
        },
        Mode::MetadataEdit => {
            let mut d = match model.draft {
                Some(d) => d,
                None => Draft::empty(),
            };
            d.text.push_str(text);
            model.draft = Some(d);
            (model, none())
        },
        Mode::Command | Mode::Search | Mode::FragmentFind => {
            model.input.push_str(text);
            let effects = if matches!(model.mode, Mode::Search) {
                one(Effect::Search(model.input.clone()))
            } else {
                none()
            };
            if matches!(model.mode, Mode::FragmentFind) {
                match &mut model.editor {
                    Some(editor) => editor.set_find(model.input.as_str()),
                    None => {},
                }
            }
            (model, effects)
        },
        _ => (model, none()),
    }
}

/// Deleting backwards (see `step_delete`).
fn on_delete(mut model: Model) -> (r: (Model, Vec<Effect>))
    ensures
        (r.0@, effect_views(r.1@)) == step_delete(model@, r.0@.editor),
{
    match model.mode {
        Mode::FragmentEdit => {
            match &mut model.editor {
                Some(editor) => editor.backspace(),
                None => {},
            }
            model.sync_draft();
            (model, none())
        },
        Mode::MetadataEdit => {
            match &mut model.draft {
                Some(d) => {
                    d.text.pop();
                },
                None => {},
            }
            (model, none())
        },
        Mode::Command | Mode::Search | Mode::FragmentFind => {
            model.input.pop();
            let effects = if matches!(model.mode, Mode::Search) {
                one(Effect::Search(model.input.clone()))
            } else {
                none()
            };
            if matches!(model.mode, Mode::FragmentFind) {
                match &mut model.editor {
                    Some(editor) => editor.set_find(model.input.as_str()),
                    None => {},
                }
            }
            (model, effects)
        },
        _ => (model, none()),
    }
}

/// Submitting (see `step_submit`).
fn on_submit(mut model: Model) -> (r: (Model, Vec<Effect>))
    ensures
        (r.0@, effect_views(r.1@)) == step_submit(model@),
{
    match model.mode {
        Mode::Command => {
            if model.input.as_str().is_empty() {
                (model, none())
            } else {
                let source = take_input(&mut model);
                model.mode = Mode::Browse;
                (model, one(Effect::Execute(source)))
            }
        },
        Mode::Search => {
            if model.input.as_str().is_empty() {
                (model, none())
            } else {
                let query = take_input(&mut model);
                model.mode = Mode::Browse;
                (model, one(Effect::Search(query)))
            }
        },
        Mode::FragmentEdit => {
            model.sync_draft();
            let saved = match &model.draft {
                Some(d) => Some(d.clone()),
                None => None,
            };
            match saved {
                Some(d) => {
                    model.mode = Mode::Browse;
                    (model, one(Effect::SaveFragment(d)))
                },
                None => (model, none()),
            }
        },
        Mode::MetadataEdit => {
            let saved = match &model.draft {
                Some(d) => Some(d.clone()),
                None => None,
            };
            match saved {
                Some(d) => {
                    model.mode = Mode::Browse;
                    (model, one(Effect::SaveMetadata(d)))
                },
                None => (model, none()),
            }
        },
        _ => (model, none()),
    }
}

/// Whether the draft exists and changed.
fn draft_dirty(model: &Model) -> (b: bool)
    ensures
        b == dirty(model@),
{
    match &model.draft {
        Some(d) => d.is_dirty(),
        None => false,
    }
}

/// Cancelling (see `step_cancel`).
fn on_cancel(mut model: Model) -> (r: (Model, Vec<Effect>))
    ensures
        (r.0@, effect_views(r.1@)) == step_cancel(model@),
{
    match model.mode {
        Mode::FragmentEdit => {
            if draft_dirty(&model) {
                model.mode = Mode::Confirm(Confirmation::DiscardFragmentDraft);
            } else {
                model.draft = None;
                model.editor = None;
                model.mode = Mode::Browse;
            }
        },
        Mode::MetadataEdit => {
            if draft_dirty(&model) {
                model.mode = Mode::Confirm(Confirmation::DiscardMetadataDraft);
            } else {
                model.draft = None;
                model.editor = None;
                model.mode = Mode::Browse;
            }
        },
        Mode::FragmentFind => {
            model.input = String::new();
            model.mode = Mode::FragmentEdit;
        },
        Mode::Confirm(_) | Mode::Command | Mode::Search | Mode::Help => {
            model.input = String::new();
            model.mode = Mode::Browse;
        },
        Mode::Browse => {},
    }
    (model, none())
}

/// Confirming (see `step_confirm`).
fn on_confirm(mut model: Model) -> (r: (Model, Vec<Effect>))
    ensures
        (r.0@, effect_views(r.1@)) == step_confirm(model@),
{
    match model.mode {
        Mode::Confirm(Confirmation::DiscardFragmentDraft) | Mode::Confirm(
            Confirmation::DiscardMetadataDraft,
        ) => {
            model.draft = None;
            model.editor = None;
            model.mode = Mode::Browse;
            (model, none())
        },
        Mode::Confirm(Confirmation::DeleteNode) => {
            let effects = match model.selected_symbol() {
                Some(s) => one(Effect::Delete(s.to_owned())),
                None => none(),
            };
            model.mode = Mode::Browse;
            (model, effects)
        },
        Mode::Confirm(Confirmation::QuitWithDraft) => {
            model.should_quit = true;
            (model, one(Effect::Exit))
        },
        _ => (model, none()),
    }
}

/// Scrolling a pane (see `step`); the fragment editor scrolls by at most `i16::MAX` rows
/// either way, as it cannot take `i16::MIN`.
fn on_scroll(mut model: Model, delta: i16) -> (r: (Model, Vec<Effect>))
    ensures
        (r.0@, effect_views(r.1@)) == step(model@, UiAction::ScrollPane(delta), r.0@.editor),
{
    if matches!(model.mode, Mode::FragmentEdit) {
        let rows: i16 = if delta == i16::MIN { -i16::MAX } else { delta };
        match &mut model.editor {
            Some(editor) => editor.scroll(rows),
            None => {},
        }
        model.sync_draft();
        return (model, none());
    }
    if matches!(model.focus, Pane::Preview) {
        let index = model.preview_tab.index();
        let current = model.preview_scroll[index];
        let next = if delta < 0 {
            current.saturating_sub(magnitude(delta))
        } else {
            current.saturating_add(delta as usize)
        };
        model.preview_scroll[index] = next;
        return (model, none());
    }
    let max = model.catalog.len().saturating_sub(model.viewport_rows());
    model.scroll = if delta < 0 {
        model.scroll.saturating_sub(magnitude(delta))
    } else {
        let s = model.scroll.saturating_add(delta as usize);
        if s < max { s } else { max }
    };
    (model, none())
}

/// The size of a negative step.
fn magnitude(delta: i16) -> (m: usize)
    requires
        delta < 0,
    ensures
        m == -delta,
{
    let wide = delta as i32;
    (0 - wide) as usize
}

/// Moving the selection one row (see `step`).
fn on_move(mut model: Model, direction: MoveDirection) -> (r: (Model, Vec<Effect>))
    ensures
        (r.0@, effect_views(r.1@)) == step(model@, UiAction::MoveSelection(direction), r.0@.editor),
{
    if !matches!(model.mode, Mode::Browse) || model.catalog.len() == 0 {
        return (model, none());
    }
    let current = match model.selected {
        Some(s) => s,
        None => 0,
    };
    let last = model.catalog.len() - 1;
    model.selected = Some(
        match direction {
            MoveDirection::Previous => current.saturating_sub(1),
            MoveDirection::Next => if current < last && current + 1 < last {
                current + 1
            } else {
                last
            },
        },
    );
    model.clamp_navigation();
    let tab = model.preview_tab;
    let effects = preview_load(&model, tab);
    (model, effects)
}

/// Moving the editor's cursor, undoing, redoing, or finding the next match (see `step`).
fn on_editor(mut model: Model, action: UiAction) -> (r: (Model, Vec<Effect>))
    requires
        action is MoveEditorCursor || action is UndoEditor || action is RedoEditor || action is FindNext,
    ensures
        (r.0@, effect_views(r.1@)) == step(model@, action, r.0@.editor),
{
    match action {
        UiAction::MoveEditorCursor(movement) => {
            if matches!(model.mode, Mode::FragmentEdit) {
                match &mut model.editor {
                    Some(editor) => editor.move_cursor(movement),
                    None => {},
                }
                model.sync_draft();
            }
            (model, none())
        },
        UiAction::UndoEditor => {
            if matches!(model.mode, Mode::FragmentEdit) {
                match &mut model.editor {
                    Some(editor) => editor.undo(),
                    None => {},
                }
                model.sync_draft();
            }
            (model, none())
        },
        UiAction::RedoEditor => {
            if matches!(model.mode, Mode::FragmentEdit) {
                match &mut model.editor {
                    Some(editor) => editor.redo(),
                    None => {},
                }
                model.sync_draft();
            }
            (model, none())
        },
        UiAction::FindNext => {
            if matches!(model.mode, Mode::FragmentFind) {
                match &mut model.editor {
                    Some(editor) => editor.find_next(),
                    None => {},
                }
            }
            (model, none())
        },
        _ => (model, none()),
    }
}

/// Applies an action: the next model and the effects the host must carry out.
pub fn update(mut model: Model, action: UiAction) -> (r: (Model, Vec<Effect>))
    ensures
        (r.0@, effect_views(r.1@)) == step(model@, action, r.0@.editor),
{
    match action {
        UiAction::Resize { width, height } => {
            model.terminal.width = width;
            model.terminal.height = height;
            model.layout_class = LayoutClass::for_size(width, height);
            model.clamp_navigation();
            (model, none())
        },
        UiAction::CheckExternalChanges => (model, one(Effect::CheckExternalChanges)),
        UiAction::MoveSelection(direction) => on_move(model, direction),
        UiAction::ScrollPane(delta) => on_scroll(model, delta),
        UiAction::FocusPane(pane) => {
            model.focus = pane;
            (model, none())
        },
        UiAction::SelectNode(index) => {
            if index < model.catalog.len() {
                model.selected = Some(index);
                model.clamp_navigation();
                let tab = model.preview_tab;
                let effects = preview_load(&model, tab);
                (model, effects)
            } else {
                (model, none())
            }
        },
        UiAction::SelectPreview(tab) => {
            model.preview_tab = tab;
            let effects = preview_load(&model, tab);
            (model, effects)
        },
        UiAction::CyclePreview(direction) => {
            model.preview_tab = model.preview_tab.cycle(direction);
            let tab = model.preview_tab;
            let effects = preview_load(&model, tab);
            (model, effects)
        },
        UiAction::StartCommand => {
            model.mode = Mode::Command;
            model.input = String::new();
            (model, none())
        },
        UiAction::StartSearch => {
            model.mode = Mode::Search;
            model.input = String::new();
            (model, none())
        },
        UiAction::StartFragmentEdit => {
            model.mode = Mode::FragmentEdit;
            model.set_draft(String::new(), String::new());
            let effects = match model.selected_symbol() {
                Some(s) => one(Effect::LoadFragmentDraft(s.to_owned())),
                None => none(),
            };
            (model, effects)
        },
        UiAction::StartMetadataEdit => {
            model.mode = Mode::MetadataEdit;
            if model.draft.is_none() {
                model.draft = Some(Draft::empty());
            }
            let effects = match model.selected_symbol() {
                Some(s) => one(Effect::LoadMetadataDraft(s.to_owned())),
                None => none(),
            };
            (model, effects)
        },
        UiAction::StartRename => {
            let input = match model.selected_symbol() {
                Some(s) => {
                    let mut input = "RENAME ".to_owned();
                    input.push_str(s);
                    input.push_str(" TO ");
                    Some(input)
                },
                None => None,
            };
            match input {
                Some(i) => {
                    model.mode = Mode::Command;
                    model.input = i;
                },
                None => {},
            }
            (model, none())
        },
        UiAction::RequestDelete => {
            if model.selected_symbol().is_some() {
                model.mode = Mode::Confirm(Confirmation::DeleteNode);
            }
            (model, none())
        },
        UiAction::CopyCanonicalXml => {
            let effects = match model.selected_symbol() {
                Some(s) => one(Effect::CopyCanonicalXml(s.to_owned())),
                None => none(),
            };
            (model, effects)
        },
        UiAction::InsertText(text) => on_insert(model, text.as_str()),
        UiAction::DeleteBackward => on_delete(model),
        UiAction::Submit => on_submit(model),
        UiAction::Cancel => on_cancel(model),
        UiAction::Confirm => on_confirm(model),
        UiAction::Reject => {
            match model.mode {
                Mode::Confirm(Confirmation::DiscardFragmentDraft) => model.mode = Mode::FragmentEdit,
                Mode::Confirm(Confirmation::DiscardMetadataDraft) => model.mode = Mode::MetadataEdit,
                Mode::Confirm(_) => model.mode = Mode::Browse,
                _ => {},
            }
            (model, none())
        },
        UiAction::ToggleHelp => {
            model.mode = if matches!(model.mode, Mode::Help) {
                Mode::Browse
            } else {
                Mode::Help
            };
            (model, none())
        },
        UiAction::Quit => {
            if draft_dirty(&model) {
                model.mode = Mode::Confirm(Confirmation::QuitWithDraft);
                (model, none())
            } else {
                model.should_quit = true;
                (model, one(Effect::Exit))
            }
        },
        UiAction::OpenSelected => {
            let tab = model.preview_tab;
            let effects = preview_load(&model, tab);
            (model, effects)
        },
        UiAction::MoveEditorCursor(_) | UiAction::UndoEditor | UiAction::RedoEditor => on_editor(model, action),
        UiAction::StartEditorFind => {
            if matches!(model.mode, Mode::FragmentEdit) {
                model.mode = Mode::FragmentFind;
                model.input = String::new();
            }
            (model, none())
        },
        UiAction::FindNext => on_editor(model, action),
        UiAction::Noop => (model, none()),
    }
}

/// The model after a failed save: back to the given editing mode with the draft's text, the
/// draft keeping its starting text, identity and symbol (a fragment editor starts again
/// over the text).
pub open spec fn restored(m: ModelView, mode: Mode, text: Seq<char>) -> ModelView {
    let previous = match m.draft {
        Some(d) => d,
        None => Draft::spec_empty(),
    };
    ModelView {
        mode,
        draft: Some(DraftView { original: previous.original, text, target: previous.target, symbol: previous.symbol }),
        editor: if mode == Mode::FragmentEdit {
            Some(fresh_editor(text))
        } else {
            None
        },
        ..m
    }
}

/// The optional text copied.
fn copy_text(s: &Option<String>) -> (r: Option<String>)
    ensures
        opt_text(r) == opt_text(*s),
{
    match s {
        Some(t) => Some(t.clone()),
        None => None,
    }
}

/// Restores a fragment draft after its save failed (see `restored`).
pub fn restore_fragment_draft(model: &mut Model, text: String)
    ensures
        final(model)@ == restored(old(model)@, Mode::FragmentEdit, text@),
{
    restore_draft(model, Mode::FragmentEdit, text);
}

/// Restores a metadata draft after its save failed (see `restored`).
pub fn restore_metadata_draft(model: &mut Model, text: String)
    ensures
        final(model)@ == restored(old(model)@, Mode::MetadataEdit, text@),
{
    restore_draft(model, Mode::MetadataEdit, text);
}

fn restore_draft(model: &mut Model, mode: Mode, text: String)
    requires
        mode == Mode::FragmentEdit || mode == Mode::MetadataEdit,
    ensures
        final(model)@ == restored(old(model)@, mode, text@),
{
    let (original, target, symbol) = match &model.draft {
        Some(d) => (d.original.clone(), d.target, copy_text(&d.symbol)),
        None => (String::new(), None, None),
    };
    model.mode = mode;
    model.set_draft(original, text);
    match &mut model.draft {
        Some(d) => {
            d.target = target;
            d.symbol = symbol;
        },
        None => {},
    }
}

/// The model once a node's metadata is loaded for editing: the draft holds its description
/// (empty when it has none) as both its original and its text, and remembers the node's
/// identity, revision and symbol (see `Model::set_draft` for the editor).
pub open spec fn metadata_loaded(m: ModelView, description: Seq<char>, id: NodeId, revision: Revision, symbol: Seq<char>) -> ModelView {
    ModelView {
        draft: Some(
            DraftView {
                original: description,
                text: description,
                target: Some(EditTarget { node_id: Some(id), base_revision: Some(revision) }),
                symbol: Some(symbol),
            },
        ),
        editor: if m.mode == Mode::FragmentEdit {
            Some(fresh_editor(description))
        } else {
            None
        },
        ..m
    }
}

/// Loads a node's metadata into the draft for editing (see `metadata_loaded`).
pub fn load_metadata_draft(model: &mut Model, node: &NodeView)
    ensures
        final(model)@ == metadata_loaded(
            old(model)@,
            match node.metadata.description_view() {
                Some(d) => d,
                None => Seq::<char>::empty(),
            },
            node.id,
            node.revision,
            node.symbol@,
        ),
{
    let description = match node.metadata.description() {
        Some(d) => d.to_owned(),
        None => String::new(),
    };
    model.set_draft(description.clone(), description);
    match &mut model.draft {
        Some(d) => {
            d.target = Some(EditTarget { node_id: Some(node.id), base_revision: Some(node.revision) });
            d.symbol = Some(node.symbol.as_str().to_owned());
        },
        None => {},
    }
}

/// Ends an edit that was saved: the draft and the editor are dropped.
pub fn finish_saved_edit(model: &mut Model)
    ensures
        final(model)@ == (ModelView { draft: None, editor: None, ..old(model)@ }),
{
    model.draft = None;
    model.editor = None;
}

/// The first row of a list that holds a text, if any.
pub open spec fn first_row(rows: Seq<Seq<char>>, s: Seq<char>) -> Option<int>
    decreases rows.len(),
{
    if rows.len() == 0 {
        None
    } else if rows.last() == s {
        match first_row(rows.drop_last(), s) {
            Some(i) => Some(i),
            None => Some(rows.len() - 1),
        }
    } else {
        first_row(rows.drop_last(), s)
    }
}

/// The model once a listing arrives: the catalog becomes the listed symbols, in order; the
/// selection goes to the first row of the preferred symbol, or else to the first row, or to
/// none in an empty catalog; the scroll position stays within the catalog.
pub open spec fn catalog_applied(m: ModelView, symbols: Seq<Seq<char>>, preferred: Option<Seq<char>>) -> ModelView {
    let found = match preferred {
        Some(p) => first_row(symbols, p),
        None => None,
    };
    ModelView {
        catalog: symbols,
        selected: match found {
            Some(i) => Some(i as usize),
            None => if symbols.len() > 0 {
                Some(0usize)
            } else {
                None
            },
        },
        scroll: if (m.scroll as int) < sat_sub(symbols.len() as int, 1) {
            m.scroll
        } else {
            sat_sub(symbols.len() as int, 1) as usize
        },
        ..m
    }
}

/// The symbols of listed nodes.
pub open spec fn listed_symbols(nodes: Seq<NodeView>) -> Seq<Seq<char>> {
    nodes.map_values(|n: NodeView| n.symbol@)
}

/// Installs a listing of the catalog (see `catalog_applied`).
pub fn apply_catalog(model: &mut Model, nodes: &Vec<NodeView>, preferred: Option<&str>)
    ensures
        final(model)@ == catalog_applied(
            old(model)@,
            listed_symbols(nodes@),
            match preferred {
                Some(p) => Some(p@),
                None => None,
            },
        ),
{
    let mut catalog: Vec<String> = Vec::new();
    let mut found: Option<usize> = None;
    let mut k: usize = 0;
    while k < nodes.len()
        invariant
            0 <= k <= nodes@.len(),
            catalog@.map_values(|c: String| c@) == listed_symbols(nodes@.take(k as int)),
            found == match preferred {
                Some(p) => match first_row(listed_symbols(nodes@.take(k as int)), p@) {
                    Some(i) => Some(i as usize),
                    None => None,
                },
                None => None::<usize>,
            },
            found matches Some(i) ==> i < k,
        decreases nodes@.len() - k,
    {
        let symbol = nodes[k].symbol.as_str().to_owned();
        let ghost before = catalog@;
        let ghost prefix = listed_symbols(nodes@.take(k as int));
        proof {
            assert(listed_symbols(nodes@.take(k + 1)) =~= prefix.push(nodes@[k as int].symbol@));
            assert(listed_symbols(nodes@.take(k + 1)).drop_last() =~= prefix);
        }
        match preferred {
            Some(p) => {
                if found.is_none() {
                    match crate::order::text_order(symbol.as_str(), p) {
                        crate::order::Precedence::Same => {
                            found = Some(k);
                        },
                        _ => {},
                    }
                }
            },
            None => {},
        }
        catalog.push(symbol);
        proof {
            assert(catalog@ =~= before.push(catalog@.last()));
            assert(catalog@.map_values(|c: String| c@) =~= before.map_values(|c: String| c@).push(catalog@.last()@));
        }
        k = k + 1;
    }
    proof {
        assert(nodes@.take(nodes@.len() as int) =~= nodes@);
    }
    let count = catalog.len();
    model.selected = match found {
        Some(i) => Some(i),
        None => if count > 0 {
            Some(0)
        } else {
            None
        },
    };
    let last = if count > 0 {
        count - 1
    } else {
        0
    };
    if model.scroll > last {
        model.scroll = last;
    }
    model.catalog = catalog;
}

/// The symbols of search hits, in ranking order.
pub open spec fn hit_symbols(hits: Seq<SearchHit>) -> Seq<Seq<char>> {
    hits.map_values(|h: SearchHit| h.symbol@)
}

/// Shows search hits as the catalog: the rows become the hits' symbols in ranking order, the
/// first row is selected (none when there is no hit), and the list scrolls to its top.
pub fn apply_search_hits(model: &mut Model, hits: &Vec<SearchHit>)
    ensures
        final(model)@ == (ModelView {
            catalog: hit_symbols(hits@),
            selected: if hits@.len() > 0 {
                Some(0usize)
            } else {
                None
            },
            scroll: 0,
            ..old(model)@
        }),
{
    let mut catalog: Vec<String> = Vec::new();
    let mut k: usize = 0;
    while k < hits.len()
        invariant
            0 <= k <= hits@.len(),
            catalog@.map_values(|c: String| c@) == hit_symbols(hits@.take(k as int)),
        decreases hits@.len() - k,
    {
        let ghost before = catalog@;
        catalog.push(hits[k].symbol.as_str().to_owned());
        proof {
            assert(hit_symbols(hits@.take(k + 1)) =~= hit_symbols(hits@.take(k as int)).push(hits@[k as int].symbol@));
            assert(catalog@ =~= before.push(catalog@.last()));
            assert(catalog@.map_values(|c: String| c@) =~= before.map_values(|c: String| c@).push(catalog@.last()@));
        }
        k = k + 1;
    }
    proof {
        assert(hits@.take(hits@.len() as int) =~= hits@);
    }
    model.selected = if catalog.len() > 0 {
        Some(0)
    } else {
        None
    };
    model.scroll = 0;
    model.catalog = catalog;
}

/// Whether the store changed since the model last looked: both change tokens known, and
/// different.
pub fn token_changed(previous: Option<u64>, current: Option<u64>) -> (b: bool)
    ensures
        b == (previous is Some && current is Some && previous->0 != current->0),
{
    match (previous, current) {
        (Some(a), Some(b)) => a != b,
        _ => false,
    }
}

/// The lines of the model's editor, or none.
pub open spec fn editor_lines(m: ModelView) -> Seq<Seq<char>> {
    match m.editor {
        Some(e) => e.lines,
        None => seq![],
    }
}

} // verus!
