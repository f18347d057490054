//! Terminal user interface: geometry, actions, the state reducer and its effects.

pub mod action;
pub mod capability;
pub mod editor_state;
pub mod input;
pub mod layout;
pub mod model;
pub mod request;
pub mod results;
pub mod terminal;
pub mod theme;

pub use action::{EditorMove, MoveDirection, UiAction};
pub use editor_state::EditorState;
pub use layout::{Layout, LayoutClass, Rect};
pub use model::{Confirmation, Draft, Effect, Mode, Model, Pane, PreviewTab};
pub use request::{quote, runtime_request, RuntimeRequest};
pub use input::{HitRegion, HitTarget, InputEvent, InputMapper, KeyCode, KeyInput, MouseInput, MouseKind};
pub use theme::{Color, CustomPalette, GlyphMode, Glyphs, Style, StyleToken, Theme};
pub use capability::terminal_capabilities_from;
pub use terminal::{TerminalCall, TerminalLog, TerminalOps, TerminalSession};
