use promptr::config::schema::{ColorMode, Config, ConfigPaths, GlyphMode as ConfigGlyph, Theme as ThemeColors};
use promptr::tui::capability::parse_color;
use promptr::tui::{terminal_capabilities_from, Color, CustomPalette, GlyphMode, Glyphs, StyleToken, Theme};
use std::path::PathBuf;

fn config() -> Config {
    let root = PathBuf::from("/tmp/promptr-theme-test");
    Config::defaults(&ConfigPaths {
        user_config: root.join("config.toml"),
        database: root.join("db.sqlite"),
        state_dir: root.join("state"),
        cache_dir: root.join("cache"),
        backup_dir: root.join("backup"),
    })
}

fn colors(surface: &str) -> ThemeColors {
    ThemeColors {
        surface: surface.to_string(),
        text: "White".to_string(),
        muted: "gray".to_string(),
        selection: "#0000ff".to_string(),
        fragment: "cyan".to_string(),
        prompt: "magenta".to_string(),
        tag: "yellow".to_string(),
        success: "green".to_string(),
        warning: "YELLOW".to_string(),
        error: "red".to_string(),
    }
}

#[test]
fn explicit_color_overrides_no_color_but_dumb_terminal_always_degrades() {
    let mut config = config();
    assert_eq!(terminal_capabilities_from(&config, true, false).0, Theme::Monochrome);

    config.ui.color = ColorMode::Truecolor;
    assert_eq!(terminal_capabilities_from(&config, true, false).0, Theme::Dark);
    config.ui.color = ColorMode::Ansi256;
    assert_eq!(terminal_capabilities_from(&config, true, false).0, Theme::Dark);

    config.ui.color = ColorMode::NoColor;
    assert_eq!(terminal_capabilities_from(&config, false, false).0, Theme::Monochrome);
    config.ui.color = ColorMode::Truecolor;
    config.ui.glyphs = ConfigGlyph::Unicode;
    assert_eq!(terminal_capabilities_from(&config, false, true), (Theme::Monochrome, GlyphMode::Ascii));
}

#[test]
fn monochrome_selection_and_focus_have_non_color_semantics() {
    let selection = Theme::Monochrome.style(StyleToken::Selection);
    let focus = Theme::Monochrome.style(StyleToken::BorderFocused);
    assert!(selection.reversed);
    assert!(focus.bold);
    assert_eq!(Glyphs::for_mode(GlyphMode::Ascii).error, "X");
}

#[test]
fn custom_palette_controls_semantic_tokens() {
    let palette = CustomPalette {
        surface: Color::Rgb(1, 2, 3),
        text: Color::White,
        muted: Color::Gray,
        selection: Color::Blue,
        fragment: Color::Cyan,
        prompt: Color::Magenta,
        tag: Color::Yellow,
        success: Color::Green,
        warning: Color::Yellow,
        error: Color::Red,
    };
    assert_eq!(Theme::Custom(palette).style(StyleToken::Surface).fg, Some(Color::Rgb(1, 2, 3)));
    let selection = Theme::Custom(palette).style(StyleToken::Selection);
    assert_eq!(selection.fg, Some(Color::Blue));
    assert!(selection.reversed);
    assert_eq!(Theme::Custom(palette).style(StyleToken::XmlTag).fg, Some(Color::Magenta));
}

#[test]
fn builtin_themes_differ_only_in_surface_and_text() {
    assert_eq!(Theme::Dark.style(StyleToken::Surface).fg, Some(Color::Black));
    assert_eq!(Theme::Light.style(StyleToken::Surface).fg, Some(Color::White));
    assert_eq!(Theme::Dark.style(StyleToken::Text).fg, Some(Color::White));
    assert_eq!(Theme::Light.style(StyleToken::Text).fg, Some(Color::Black));
    assert_eq!(Theme::Dark.style(StyleToken::Draft).fg, Some(Color::LightMagenta));
    assert_eq!(Theme::Light.style(StyleToken::Match).fg, Some(Color::Yellow));
    assert!(Theme::Dark.style(StyleToken::Selection).reversed);
    assert!(!Theme::Dark.style(StyleToken::Text).reversed);
    assert!(Theme::Monochrome.style(StyleToken::TextMuted).dim);
    assert_eq!(Theme::Monochrome.style(StyleToken::Text).fg, None);
    assert!(Theme::Monochrome.style(StyleToken::Error).bold);
}

#[test]
fn theme_colors_parse_hex_and_names() {
    assert_eq!(parse_color("#010203"), Color::Rgb(1, 2, 3));
    assert_eq!(parse_color("#FFa000"), Color::Rgb(255, 160, 0));
    assert_eq!(parse_color("#+0a0b0"), Color::Rgb(0, 160, 176));
    assert_eq!(parse_color("#12345"), Color::Reset);
    assert_eq!(parse_color("#12345g"), Color::Reset);
    assert_eq!(parse_color("DarkGray"), Color::DarkGray);
    assert_eq!(parse_color("BLUE"), Color::Blue);
    assert_eq!(parse_color("orange"), Color::Reset);
    assert_eq!(parse_color(""), Color::Reset);
}

#[test]
fn named_light_and_custom_themes_are_chosen_by_name() {
    let mut config = config();
    config.ui.color = ColorMode::Truecolor;
    config.ui.theme = "LIGHT".to_string();
    assert_eq!(terminal_capabilities_from(&config, false, false), (Theme::Light, GlyphMode::Unicode));
    config.ui.theme = "Monochrome".to_string();
    assert_eq!(terminal_capabilities_from(&config, false, false).0, Theme::Monochrome);
    config.themes.push(("ocean".to_string(), colors("#102030")));
    config.ui.theme = "ocean".to_string();
    let (theme, _) = terminal_capabilities_from(&config, false, false);
    match theme {
        Theme::Custom(p) => {
            assert_eq!(p.surface, Color::Rgb(16, 32, 48));
            assert_eq!(p.text, Color::White);
            assert_eq!(p.selection, Color::Rgb(0, 0, 255));
            assert_eq!(p.warning, Color::Yellow);
        }
        other => panic!("expected a custom theme, got {:?}", other),
    }
    config.ui.theme = "Ocean".to_string();
    assert_eq!(terminal_capabilities_from(&config, false, false).0, Theme::Dark);
    config.ui.glyphs = ConfigGlyph::Ascii;
    assert_eq!(terminal_capabilities_from(&config, false, false).1, GlyphMode::Ascii);
}

#[test]
fn accepted_theme_colors_are_never_the_terminal_default() {
    for text in ["#A0b1C2", "#000000", "black", "DarkGray", "MAGENTA", "white"] {
        assert!(promptr::config::schema::valid_color(text));
        assert_ne!(parse_color(text), Color::Reset);
    }
    assert!(!promptr::config::schema::valid_color("#+0a0b0"));
}
