//! Terminal input mapped to semantic actions, so that mouse and keyboard reach the same
//! reducer.

use vstd::prelude::*;

use super::action::{EditorMove, MoveDirection, UiAction};
use super::layout::Rect;
use super::model::{Mode, Pane, PreviewTab};

verus! {

/// A key.
#[derive(Debug, Clone, Copy, PartialEq, Eq)]
pub enum KeyCode {
    /// A character key.
    Char(char),
    /// Escape.
    Esc,
    /// Enter.
    Enter,
    /// Arrow up.
    Up,
    /// Arrow down.
    Down,
    /// Arrow left.
    Left,
    /// Arrow right.
    Right,
    /// Home.
    Home,
    /// End.
    End,
    /// Backspace.
    Backspace,
    /// Any other key.
    Other,
}

/// A key press with its modifiers.
#[derive(Debug, Clone, Copy, PartialEq, Eq)]
pub struct KeyInput {
    /// The key.
    pub code: KeyCode,
    /// Control held.
    pub control: bool,
    /// Shift held.
    pub shift: bool,
}

/// A mouse event kind.
#[derive(Debug, Clone, Copy, PartialEq, Eq)]
pub enum MouseKind {
    /// Wheel up.
    ScrollUp,
    /// Wheel down.
    ScrollDown,
    /// Left button pressed.
    LeftDown,
    /// Anything else.
    Other,
}

/// A mouse event at a cell.
#[derive(Debug, Clone, Copy, PartialEq, Eq)]
pub struct MouseInput {
    /// What happened.
    pub kind: MouseKind,
    /// Column.
    pub column: u16,
    /// Row.
    pub row: u16,
}

/// A terminal event.
#[derive(Debug, Clone, PartialEq, Eq)]
pub enum InputEvent {
    /// A key event; `active` for presses and repeats, not for releases.
    Key {
        /// The key.
        key: KeyInput,
        /// Whether it is a press or a repeat.
        active: bool,
    },
    /// A mouse event.
    Mouse(MouseInput),
    /// Pasted text.
    Paste(String),
    /// New terminal size.
    Resize(u16, u16),
    /// The terminal gained focus.
    FocusGained,
    /// The terminal lost focus.
    FocusLost,
}

/// What a click on a region means.
#[derive(Debug, Clone, Copy, PartialEq, Eq)]
pub enum HitTarget {
    /// Focus a pane.
    Pane(Pane),
    /// Select a catalog row.
    Node(usize),
    /// Show a preview tab.
    Preview(PreviewTab),
    /// Open the selected node.
    OpenSelected,
}

/// A clickable area.
#[derive(Debug, Clone, Copy, PartialEq, Eq)]
pub struct HitRegion {
    /// The area.
    pub rect: Rect,
    /// What a click means.
    pub target: HitTarget,
}

/// Whether a cell lies in a rectangle (edges capped at `u16::MAX`).
pub open spec fn inside(rect: Rect, column: u16, row: u16) -> bool {
    &&& column >= rect.x
    &&& row >= rect.y
    &&& column < super::layout::sat_add_u16(rect.x as int, rect.width as int)
    &&& row < super::layout::sat_add_u16(rect.y as int, rect.height as int)
}

/// Whether a cell lies in a rectangle.
pub fn contains(rect: Rect, column: u16, row: u16) -> (b: bool)
    ensures
        b == inside(rect, column, row),
{
    column >= rect.x && row >= rect.y && column < rect.x.saturating_add(rect.width) && row
        < rect.y.saturating_add(rect.height)
}

/// The action of a click target.
pub open spec fn target_action(target: HitTarget) -> UiAction {
    match target {
        HitTarget::Pane(pane) => UiAction::FocusPane(pane),
        HitTarget::Node(index) => UiAction::SelectNode(index),
        HitTarget::Preview(tab) => UiAction::SelectPreview(tab),
        HitTarget::OpenSelected => UiAction::OpenSelected,
    }
}

/// The action of a click target.
pub fn action_for_target(target: HitTarget) -> (a: UiAction)
    ensures
        a == target_action(target),
{
    match target {
        HitTarget::Pane(pane) => UiAction::FocusPane(pane),
        HitTarget::Node(index) => UiAction::SelectNode(index),
        HitTarget::Preview(tab) => UiAction::SelectPreview(tab),
        HitTarget::OpenSelected => UiAction::OpenSelected,
    }
}

/// The action of a key held with Control.
pub open spec fn control_action(code: KeyCode, mode: Mode) -> UiAction {
    match code {
        KeyCode::Char('c') => if mode == Mode::Browse {
            UiAction::Quit
        } else {
            UiAction::Cancel
        },
        KeyCode::Char('s') => if mode == Mode::FragmentEdit || mode == Mode::MetadataEdit {
            UiAction::Submit
        } else {
            UiAction::Noop
        },
        KeyCode::Char('z') => if mode == Mode::FragmentEdit {
            UiAction::UndoEditor
        } else {
            UiAction::Noop
        },
        KeyCode::Char('y') => if mode == Mode::FragmentEdit {
            UiAction::RedoEditor
        } else {
            UiAction::Noop
        },
        KeyCode::Char('f') => if mode == Mode::FragmentEdit {
            UiAction::StartEditorFind
        } else {
            UiAction::Noop
        },
        KeyCode::Left => if mode == Mode::FragmentEdit {
            UiAction::MoveEditorCursor(EditorMove::WordLeft)
        } else {
            UiAction::Noop
        },
        KeyCode::Right => if mode == Mode::FragmentEdit {
            UiAction::MoveEditorCursor(EditorMove::WordRight)
        } else {
            UiAction::Noop
        },
        KeyCode::Char('d') => if mode == Mode::Browse {
            UiAction::ScrollPane(10i16)
        } else {
            UiAction::Noop
        },
        KeyCode::Char('u') => if mode == Mode::Browse {
            UiAction::ScrollPane(-10i16)
        } else {
            UiAction::Noop
        },
        _ => UiAction::Noop,
    }
}

/// Whether a mode takes typed text.
pub open spec fn typing(mode: Mode) -> bool {
    mode == Mode::Command || mode == Mode::Search || mode == Mode::FragmentEdit || mode == Mode::FragmentFind
        || mode == Mode::MetadataEdit
}

/// The action of a browsing key.
pub open spec fn browse_action(code: KeyCode, shift: bool) -> UiAction {
    match code {
        KeyCode::Char('j') | KeyCode::Down => UiAction::MoveSelection(MoveDirection::Next),
        KeyCode::Char('k') | KeyCode::Up => UiAction::MoveSelection(MoveDirection::Previous),
        KeyCode::Enter | KeyCode::Right => UiAction::OpenSelected,
        KeyCode::Char('/') => UiAction::StartSearch,
        KeyCode::Char(':') => UiAction::StartCommand,
        KeyCode::Char('e') => UiAction::StartFragmentEdit,
        KeyCode::Char('m') => UiAction::StartMetadataEdit,
        KeyCode::Char('r') => UiAction::StartRename,
        KeyCode::Char('d') => UiAction::RequestDelete,
        KeyCode::Char('y') => UiAction::CopyCanonicalXml,
        KeyCode::Char('p') => if shift {
            UiAction::CyclePreview(MoveDirection::Previous)
        } else {
            UiAction::CyclePreview(MoveDirection::Next)
        },
        KeyCode::Char('?') => UiAction::ToggleHelp,
        KeyCode::Char('q') => UiAction::Quit,
        _ => UiAction::Noop,
    }
}

/// The action of a fragment editor key (other than typing and Backspace).
pub open spec fn editor_action(code: KeyCode) -> Option<UiAction> {
    match code {
        KeyCode::Up => Some(UiAction::MoveEditorCursor(EditorMove::Up)),
        KeyCode::Down => Some(UiAction::MoveEditorCursor(EditorMove::Down)),
        KeyCode::Left => Some(UiAction::MoveEditorCursor(EditorMove::Left)),
        KeyCode::Right => Some(UiAction::MoveEditorCursor(EditorMove::Right)),
        KeyCode::Home => Some(UiAction::MoveEditorCursor(EditorMove::LineStart)),
        KeyCode::End => Some(UiAction::MoveEditorCursor(EditorMove::LineEnd)),
        _ => None,
    }
}

/// The result of a key: an action, or text to insert.
pub enum KeyResult {
    /// An action without text.
    Plain(UiAction),
    /// Insert this text.
    Text(Seq<char>),
}

/// The key map. With Control: see `control_action`. Otherwise Escape cancels; a confirmation
/// takes Enter or `y` for yes and `n` for no; browsing keys are in `browse_action`; Enter
/// submits a command or search, finds the next match, or starts a new line in the fragment
/// editor; the editor moves with the arrows, Home and End; Backspace deletes and characters
/// are typed in every typing mode; anything else does nothing.
pub open spec fn key_action(key: KeyInput, mode: Mode) -> KeyResult {
    if key.control {
        KeyResult::Plain(control_action(key.code, mode))
    } else if key.code == KeyCode::Esc {
        KeyResult::Plain(UiAction::Cancel)
    } else {
        match mode {
            Mode::Confirm(_) => KeyResult::Plain(
                match key.code {
                    KeyCode::Enter | KeyCode::Char('y') => UiAction::Confirm,
                    KeyCode::Char('n') => UiAction::Reject,
                    _ => UiAction::Noop,
                },
            ),
            Mode::Browse => KeyResult::Plain(browse_action(key.code, key.shift)),
            _ => match key.code {
                KeyCode::Enter => match mode {
                    Mode::Command | Mode::Search => KeyResult::Plain(UiAction::Submit),
                    Mode::FragmentFind => KeyResult::Plain(UiAction::FindNext),
                    Mode::FragmentEdit => KeyResult::Text(seq!['\n']),
                    _ => KeyResult::Plain(UiAction::Noop),
                },
                KeyCode::Backspace => KeyResult::Plain(
                    if typing(mode) {
                        UiAction::DeleteBackward
                    } else {
                        UiAction::Noop
                    },
                ),
                KeyCode::Char(c) => if typing(mode) {
                    KeyResult::Text(seq![c])
                } else {
                    KeyResult::Plain(UiAction::Noop)
                },
                _ => KeyResult::Plain(
                    if mode == Mode::FragmentEdit {
                        match editor_action(key.code) {
                            Some(a) => a,
                            None => UiAction::Noop,
                        }
                    } else {
                        UiAction::Noop
                    },
                ),
            },
        }
    }
}

/// Whether an action is the one a key result describes.
pub open spec fn is_result(a: UiAction, k: KeyResult) -> bool {
    match k {
        KeyResult::Plain(p) => a == p,
        KeyResult::Text(t) => a matches UiAction::InsertText(s) && s@ == t,
    }
}

/// A one-character text.
fn char_text(c: char) -> (s: String)
    ensures
        s@ == seq![c],
{
    let mut s = String::new();
    s.push(c);
    proof {
        assert(s@ =~= seq![c]);
    }
    s
}

fn control_key(code: KeyCode, mode: Mode) -> (a: UiAction)
    ensures
        a == control_action(code, mode),
{
    let editing = matches!(mode, Mode::FragmentEdit);
    let browsing = matches!(mode, Mode::Browse);
    match code {
        KeyCode::Char('c') => if browsing {
            UiAction::Quit
        } else {
            UiAction::Cancel
        },
        KeyCode::Char('s') => if editing || matches!(mode, Mode::MetadataEdit) {
            UiAction::Submit
        } else {
            UiAction::Noop
        },
        KeyCode::Char('z') => if editing {
            UiAction::UndoEditor
        } else {
            UiAction::Noop
        },
        KeyCode::Char('y') => if editing {
            UiAction::RedoEditor
        } else {
            UiAction::Noop
        },
        KeyCode::Char('f') => if editing {
            UiAction::StartEditorFind
        } else {
            UiAction::Noop
        },
        KeyCode::Left => if editing {
            UiAction::MoveEditorCursor(EditorMove::WordLeft)
        } else {
            UiAction::Noop
        },
        KeyCode::Right => if editing {
            UiAction::MoveEditorCursor(EditorMove::WordRight)
        } else {
            UiAction::Noop
        },
        KeyCode::Char('d') => if browsing {
            UiAction::ScrollPane(10)
        } else {
            UiAction::Noop
        },
        KeyCode::Char('u') => if browsing {
            UiAction::ScrollPane(-10)
        } else {
            UiAction::Noop
        },
        _ => UiAction::Noop,
    }
}

fn browse_key(code: KeyCode, shift: bool) -> (a: UiAction)
    ensures
        a == browse_action(code, shift),
{
    match code {
        KeyCode::Char('j') | KeyCode::Down => UiAction::MoveSelection(MoveDirection::Next),
        KeyCode::Char('k') | KeyCode::Up => UiAction::MoveSelection(MoveDirection::Previous),
        KeyCode::Enter | KeyCode::Right => UiAction::OpenSelected,
        KeyCode::Char('/') => UiAction::StartSearch,
        KeyCode::Char(':') => UiAction::StartCommand,
        KeyCode::Char('e') => UiAction::StartFragmentEdit,
        KeyCode::Char('m') => UiAction::StartMetadataEdit,
        KeyCode::Char('r') => UiAction::StartRename,
        KeyCode::Char('d') => UiAction::RequestDelete,
        KeyCode::Char('y') => UiAction::CopyCanonicalXml,
        KeyCode::Char('p') => if shift {
            UiAction::CyclePreview(MoveDirection::Previous)
        } else {
            UiAction::CyclePreview(MoveDirection::Next)
        },
        KeyCode::Char('?') => UiAction::ToggleHelp,
        KeyCode::Char('q') => UiAction::Quit,
        _ => UiAction::Noop,
    }
}

/// Maps a key in a mode to its action.
pub fn map_key(key: KeyInput, mode: Mode) -> (a: UiAction)
    ensures
        is_result(a, key_action(key, mode)),
{
    if key.control {
        return control_key(key.code, mode);
    }
    if matches!(key.code, KeyCode::Esc) {
        return UiAction::Cancel;
    }
    let typing_mode = matches!(mode, Mode::Command | Mode::Search | Mode::FragmentEdit | Mode::FragmentFind | Mode::MetadataEdit);
    match mode {
        Mode::Confirm(_) => match key.code {
            KeyCode::Enter | KeyCode::Char('y') => UiAction::Confirm,
            KeyCode::Char('n') => UiAction::Reject,
            _ => UiAction::Noop,
        },
        Mode::Browse => browse_key(key.code, key.shift),
        _ => match key.code {
            KeyCode::Enter => match mode {
                Mode::Command | Mode::Search => UiAction::Submit,
                Mode::FragmentFind => UiAction::FindNext,
                Mode::FragmentEdit => UiAction::InsertText(char_text('\n')),
                _ => UiAction::Noop,
            },
            KeyCode::Backspace => if typing_mode {
                UiAction::DeleteBackward
            } else {
                UiAction::Noop
            },
            KeyCode::Char(c) => if typing_mode {
                UiAction::InsertText(char_text(c))
            } else {
                UiAction::Noop
            },
            KeyCode::Up => if matches!(mode, Mode::FragmentEdit) {
                UiAction::MoveEditorCursor(EditorMove::Up)
            } else {
                UiAction::Noop
            },
            KeyCode::Down => if matches!(mode, Mode::FragmentEdit) {
                UiAction::MoveEditorCursor(EditorMove::Down)
            } else {
                UiAction::Noop
            },
            KeyCode::Left => if matches!(mode, Mode::FragmentEdit) {
                UiAction::MoveEditorCursor(EditorMove::Left)
            } else {
                UiAction::Noop
            },
            KeyCode::Right => if matches!(mode, Mode::FragmentEdit) {
                UiAction::MoveEditorCursor(EditorMove::Right)
            } else {
                UiAction::Noop
            },
            KeyCode::Home => if matches!(mode, Mode::FragmentEdit) {
                UiAction::MoveEditorCursor(EditorMove::LineStart)
            } else {
                UiAction::Noop
            },
            KeyCode::End => if matches!(mode, Mode::FragmentEdit) {
                UiAction::MoveEditorCursor(EditorMove::LineEnd)
            } else {
                UiAction::Noop
            },
            _ => UiAction::Noop,
        },
    }
}

/// The first region holding a cell, by position in the list.
pub open spec fn first_hit(regions: Seq<HitRegion>, column: u16, row: u16) -> Option<HitRegion>
    decreases regions.len(),
{
    if regions.len() == 0 {
        None
    } else if inside(regions[0].rect, column, row) {
        Some(regions[0])
    } else {
        first_hit(regions.drop_first(), column, row)
    }
}

/// Maps terminal events to actions, knowing where the clickable regions are.
#[derive(Debug, Clone, Default)]
pub struct InputMapper {
    regions: Vec<HitRegion>,
}

/// The action a mouse event means, given the regions.
pub open spec fn mouse_action(regions: Seq<HitRegion>, m: MouseInput) -> Option<UiAction> {
    match m.kind {
        MouseKind::ScrollUp => Some(UiAction::ScrollPane(-3i16)),
        MouseKind::ScrollDown => Some(UiAction::ScrollPane(3i16)),
        MouseKind::LeftDown => match first_hit(regions, m.column, m.row) {
            Some(r) => Some(target_action(r.target)),
            None => None,
        },
        MouseKind::Other => None,
    }
}

impl InputMapper {
    /// The clickable regions.
    pub closed spec fn spec_regions(&self) -> Seq<HitRegion> {
        self.regions@
    }

    /// A mapper with no region.
    pub fn new() -> (m: Self)
        ensures
            m.spec_regions().len() == 0,
    {
        InputMapper { regions: Vec::new() }
    }

    /// Replaces the clickable regions.
    pub fn set_regions(&mut self, regions: Vec<HitRegion>)
        ensures
            final(self).spec_regions() == regions@,
    {
        self.regions = regions;
    }

    /// The action of an event: released keys mean nothing, pasted text is inserted and never
    /// submitted, focus gained checks for outside changes, focus lost does nothing.
    pub fn map(&self, event: InputEvent, mode: Mode) -> (r: Option<UiAction>)
        ensures
            match event {
                InputEvent::Key { key, active } => if active {
                    r matches Some(a) && is_result(a, key_action(key, mode))
                } else {
                    r.is_none()
                },
                InputEvent::Mouse(m) => r == mouse_action(self.spec_regions(), m),
                InputEvent::Paste(text) => r matches Some(UiAction::InsertText(t)) && t@ == text@,
                InputEvent::Resize(width, height) => r == Some(UiAction::Resize { width, height }),
                InputEvent::FocusGained => r == Some(UiAction::CheckExternalChanges),
                InputEvent::FocusLost => r == Some(UiAction::Noop),
            },
    {
        match event {
            InputEvent::Key { key, active } => {
                if active {
                    Some(map_key(key, mode))
                } else {
                    None
                }
            },
            InputEvent::Mouse(m) => self.map_mouse(m),
            InputEvent::Paste(text) => Some(UiAction::InsertText(text)),
            InputEvent::Resize(width, height) => Some(UiAction::Resize { width, height }),
            InputEvent::FocusGained => Some(UiAction::CheckExternalChanges),
            InputEvent::FocusLost => Some(UiAction::Noop),
        }
    }

    fn map_mouse(&self, m: MouseInput) -> (r: Option<UiAction>)
        ensures
            r == mouse_action(self.spec_regions(), m),
    {
        match m.kind {
            MouseKind::ScrollUp => Some(UiAction::ScrollPane(-3)),
            MouseKind::ScrollDown => Some(UiAction::ScrollPane(3)),
            MouseKind::LeftDown => {
                let mut i: usize = 0;
                assert(self.regions@.skip(0) =~= self.regions@);
                while i < self.regions.len()
                    invariant
                        m.kind == MouseKind::LeftDown,
                        0 <= i <= self.regions@.len(),
                        first_hit(self.regions@, m.column, m.row) == first_hit(self.regions@.skip(i as int), m.column, m.row),
                    decreases self.regions@.len() - i,
                {
                    let region = self.regions[i];
                    proof {
                        assert(self.regions@.skip(i as int)[0] == region);
                        assert(self.regions@.skip(i as int).drop_first() =~= self.regions@.skip(i + 1));
                    }
                    if contains(region.rect, m.column, m.row) {
                        proof {
                            assert(first_hit(self.regions@.skip(i as int), m.column, m.row) == Some(region));
                        }
                        return Some(action_for_target(region.target));
                    }
                    i = i + 1;
                }
                proof {
                    assert(self.regions@.skip(i as int).len() == 0);
                }
                None
            },
            MouseKind::Other => None,
        }
    }
}

} // verus!
