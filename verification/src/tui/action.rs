//! Semantic UI actions, independent of the input device.

use vstd::prelude::*;

use super::model::{Pane, PreviewTab};

verus! {

/// Direction of a move.
#[derive(Debug, Clone, Copy, PartialEq, Eq)]
pub enum MoveDirection {
    /// Backwards.
    Previous,
    /// Forwards.
    Next,
}

/// A cursor move in the fragment editor.
#[derive(Debug, Clone, Copy, PartialEq, Eq)]
pub enum EditorMove {
    /// One line up.
    Up,
    /// One line down.
    Down,
    /// One character left.
    Left,
    /// One character right.
    Right,
    /// One word left.
    WordLeft,
    /// One word right.
    WordRight,
    /// To the start of the line.
    LineStart,
    /// To the end of the line.
    LineEnd,
}

/// What the user asked for.
#[derive(Debug, Clone, PartialEq, Eq)]
pub enum UiAction {
    /// Move the catalog selection.
    MoveSelection(MoveDirection),
    /// Scroll the focused pane by rows.
    ScrollPane(i16),
    /// Focus a pane.
    FocusPane(Pane),
    /// Select a catalog row.
    SelectNode(usize),
    /// Open the selected node.
    OpenSelected,
    /// Show a preview tab.
    SelectPreview(PreviewTab),
    /// Cycle the preview tabs.
    CyclePreview(MoveDirection),
    /// Start typing a command.
    StartCommand,
    /// Start typing a search.
    StartSearch,
    /// Edit the selected fragment.
    StartFragmentEdit,
    /// Edit the selected node's metadata.
    StartMetadataEdit,
    /// Rename the selected node.
    StartRename,
    /// Ask to delete the selected node.
    RequestDelete,
    /// Copy the selected node's canonical XML.
    CopyCanonicalXml,
    /// Insert text.
    InsertText(String),
    /// Delete the character before the cursor.
    DeleteBackward,
    /// Move the editor cursor.
    MoveEditorCursor(EditorMove),
    /// Undo an editor change.
    UndoEditor,
    /// Redo an editor change.
    RedoEditor,
    /// Start finding text in the editor.
    StartEditorFind,
    /// Find the next match.
    FindNext,
    /// Submit the current input.
    Submit,
    /// Cancel the current mode.
    Cancel,
    /// Answer yes.
    Confirm,
    /// Answer no.
    Reject,
    /// Show or hide help.
    ToggleHelp,
    /// Quit.
    Quit,
    /// The terminal changed size.
    Resize {
        /// New width.
        width: u16,
        /// New height.
        height: u16,
    },
    /// Look for changes made elsewhere.
    CheckExternalChanges,
    /// Nothing.
    Noop,
}

} // verus!
