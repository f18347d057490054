//! Glyph sets and semantic style tokens.

use vstd::prelude::*;

verus! {

/// A semantic style slot.
#[derive(Debug, Clone, Copy, PartialEq, Eq, Hash)]
pub enum StyleToken {
    /// Background.
    Surface,
    /// Pane border.
    Border,
    /// Border of the focused pane.
    BorderFocused,
    /// Ordinary text.
    Text,
    /// Secondary text.
    TextMuted,
    /// Selected row.
    Selection,
    /// Search match.
    Match,
    /// Fragment marker.
    Fragment,
    /// Prompt marker.
    Prompt,
    /// Tag.
    Tag,
    /// Success message.
    Success,
    /// Warning message.
    Warning,
    /// Error message.
    Error,
    /// Unsaved draft marker.
    Draft,
    /// XML tag.
    XmlTag,
    /// XML text.
    XmlText,
}

/// Which glyphs the terminal can show.
#[derive(Debug, Clone, Copy, PartialEq, Eq)]
pub enum GlyphMode {
    /// Unicode box drawing and symbols.
    Unicode,
    /// ASCII only.
    Ascii,
}

/// The glyphs the interface draws with.
#[derive(Debug, Clone, Copy, PartialEq, Eq)]
pub struct Glyphs {
    /// Expanded tree node.
    pub expanded: &'static str,
    /// Collapsed tree node.
    pub collapsed: &'static str,
    /// Tree branch.
    pub branch: &'static str,
    /// Last tree branch.
    pub last_branch: &'static str,
    /// Success marker.
    pub success: &'static str,
    /// Warning marker.
    pub warning: &'static str,
    /// Error marker.
    pub error: &'static str,
    /// Unsaved marker.
    pub dirty: &'static str,
}

impl Glyphs {
    /// The glyph set of a mode.
    pub fn for_mode(mode: GlyphMode) -> (g: Self)
        ensures
            mode == GlyphMode::Unicode ==> g == (Glyphs {
                expanded: "▾",
                collapsed: "▸",
                branch: "├─",
                last_branch: "└─",
                success: "✓",
                warning: "!",
                error: "×",
                dirty: "●",
            }),
            mode == GlyphMode::Ascii ==> g == (Glyphs {
                expanded: "v",
                collapsed: ">",
                branch: "+-",
                last_branch: "`-",
                success: "OK",
                warning: "!",
                error: "X",
                dirty: "*",
            }),
    {
        match mode {
            GlyphMode::Unicode => Glyphs {
                expanded: "▾",
                collapsed: "▸",
                branch: "├─",
                last_branch: "└─",
                success: "✓",
                warning: "!",
                error: "×",
                dirty: "●",
            },
            GlyphMode::Ascii => Glyphs {
                expanded: "v",
                collapsed: ">",
                branch: "+-",
                last_branch: "`-",
                success: "OK",
                warning: "!",
                error: "X",
                dirty: "*",
            },
        }
    }
}

/// A terminal color, as the interface hands it to the terminal.
#[derive(Debug, Clone, Copy, PartialEq, Eq, Structural)]
pub enum Color {
    /// The terminal's own default.
    Reset,
    /// Black.
    Black,
    /// Red.
    Red,
    /// Green.
    Green,
    /// Yellow.
    Yellow,
    /// Blue.
    Blue,
    /// Magenta.
    Magenta,
    /// Cyan.
    Cyan,
    /// Gray.
    Gray,
    /// Dark gray.
    DarkGray,
    /// Light magenta.
    LightMagenta,
    /// White.
    White,
    /// A 24-bit color.
    Rgb(u8, u8, u8),
}

/// A concrete terminal style: a foreground color and the modifiers added to it.
#[derive(Debug, Clone, Copy, PartialEq, Eq, Structural)]
pub struct Style {
    /// Foreground color; `None` keeps the terminal's.
    pub fg: Option<Color>,
    /// Bold text.
    pub bold: bool,
    /// Dimmed text.
    pub dim: bool,
    /// Reversed video.
    pub reversed: bool,
}

/// The colors of a user theme, one per semantic slot.
#[derive(Debug, Clone, Copy, PartialEq, Eq, Structural)]
pub struct CustomPalette {
    /// Surface color.
    pub surface: Color,
    /// Text color.
    pub text: Color,
    /// Muted color.
    pub muted: Color,
    /// Selection color.
    pub selection: Color,
    /// Fragment color.
    pub fragment: Color,
    /// Prompt color.
    pub prompt: Color,
    /// Tag color.
    pub tag: Color,
    /// Success color.
    pub success: Color,
    /// Warning color.
    pub warning: Color,
    /// Error color.
    pub error: Color,
}

/// The theme the interface draws with.
#[derive(Debug, Clone, Copy, PartialEq, Eq, Structural)]
pub enum Theme {
    /// Light text on a dark surface.
    Dark,
    /// Dark text on a light surface.
    Light,
    /// No colors; meaning carried by modifiers alone.
    Monochrome,
    /// A user palette.
    Custom(CustomPalette),
}

/// A style with no color and no modifier.
pub open spec fn plain_style() -> Style {
    Style { fg: None, bold: false, dim: false, reversed: false }
}

/// A style with a foreground color, reversed for the selection.
pub open spec fn colored(c: Color, token: StyleToken) -> Style {
    Style { fg: Some(c), bold: false, dim: false, reversed: token == StyleToken::Selection }
}

/// The monochrome style of a token: selection reversed, focus and status bold, muted text dim.
pub open spec fn monochrome_style(token: StyleToken) -> Style {
    match token {
        StyleToken::Selection => Style { reversed: true, ..plain_style() },
        StyleToken::BorderFocused | StyleToken::Error | StyleToken::Warning | StyleToken::Success
        | StyleToken::Draft => Style { bold: true, ..plain_style() },
        StyleToken::TextMuted => Style { dim: true, ..plain_style() },
        _ => plain_style(),
    }
}

/// The palette color that colors a token.
pub open spec fn palette_color(p: CustomPalette, token: StyleToken) -> Color {
    match token {
        StyleToken::Surface => p.surface,
        StyleToken::Border | StyleToken::TextMuted => p.muted,
        StyleToken::BorderFocused | StyleToken::Selection => p.selection,
        StyleToken::Match | StyleToken::Warning => p.warning,
        StyleToken::Fragment | StyleToken::XmlText => p.fragment,
        StyleToken::Prompt | StyleToken::XmlTag => p.prompt,
        StyleToken::Tag | StyleToken::Draft => p.tag,
        StyleToken::Success => p.success,
        StyleToken::Error => p.error,
        StyleToken::Text => p.text,
    }
}

/// The color of a token in the built-in dark (`light == false`) or light theme.
pub open spec fn builtin_color(light: bool, token: StyleToken) -> Color {
    match token {
        StyleToken::Surface => if light { Color::White } else { Color::Black },
        StyleToken::Border | StyleToken::TextMuted => Color::Gray,
        StyleToken::BorderFocused | StyleToken::Selection => Color::Blue,
        StyleToken::Match | StyleToken::Warning => Color::Yellow,
        StyleToken::Fragment | StyleToken::XmlText => Color::Cyan,
        StyleToken::Prompt | StyleToken::XmlTag => Color::Magenta,
        StyleToken::Tag | StyleToken::Draft => Color::LightMagenta,
        StyleToken::Success => Color::Green,
        StyleToken::Error => Color::Red,
        StyleToken::Text => if light { Color::Black } else { Color::White },
    }
}

/// The style of a token under a theme.
pub open spec fn style_of(theme: Theme, token: StyleToken) -> Style {
    match theme {
        Theme::Monochrome => monochrome_style(token),
        Theme::Custom(p) => colored(palette_color(p, token), token),
        Theme::Light => colored(builtin_color(true, token), token),
        Theme::Dark => colored(builtin_color(false, token), token),
    }
}

fn is_selection(token: StyleToken) -> (b: bool)
    ensures
        b == (token == StyleToken::Selection),
{
    match token {
        StyleToken::Selection => true,
        _ => false,
    }
}

impl Theme {
    /// Lowers a semantic token to a terminal style.
    pub fn style(self, token: StyleToken) -> (s: Style)
        ensures
            s == style_of(self, token),
    {
        let none = Style { fg: None, bold: false, dim: false, reversed: false };
        match self {
            Theme::Monochrome => match token {
                StyleToken::Selection => Style { reversed: true, ..none },
                StyleToken::BorderFocused | StyleToken::Error | StyleToken::Warning | StyleToken::Success
                | StyleToken::Draft => Style { bold: true, ..none },
                StyleToken::TextMuted => Style { dim: true, ..none },
                _ => none,
            },
            Theme::Custom(p) => {
                let c = match token {
                    StyleToken::Surface => p.surface,
                    StyleToken::Border | StyleToken::TextMuted => p.muted,
                    StyleToken::BorderFocused | StyleToken::Selection => p.selection,
                    StyleToken::Match | StyleToken::Warning => p.warning,
                    StyleToken::Fragment | StyleToken::XmlText => p.fragment,
                    StyleToken::Prompt | StyleToken::XmlTag => p.prompt,
                    StyleToken::Tag | StyleToken::Draft => p.tag,
                    StyleToken::Success => p.success,
                    StyleToken::Error => p.error,
                    StyleToken::Text => p.text,
                };
                Style { fg: Some(c), reversed: is_selection(token), ..none }
            },
            _ => {
                let light = match self {
                    Theme::Light => true,
                    _ => false,
                };
                let c = match token {
                    StyleToken::Surface => if light { Color::White } else { Color::Black },
                    StyleToken::Border | StyleToken::TextMuted => Color::Gray,
                    StyleToken::BorderFocused | StyleToken::Selection => Color::Blue,
                    StyleToken::Match | StyleToken::Warning => Color::Yellow,
                    StyleToken::Fragment | StyleToken::XmlText => Color::Cyan,
                    StyleToken::Prompt | StyleToken::XmlTag => Color::Magenta,
                    StyleToken::Tag | StyleToken::Draft => Color::LightMagenta,
                    StyleToken::Success => Color::Green,
                    StyleToken::Error => Color::Red,
                    StyleToken::Text => if light { Color::Black } else { Color::White },
                };
                Style { fg: Some(c), reversed: is_selection(token), ..none }
            },
        }
    }
}

} // verus!
