//! Configuration schema: typed settings, the layer a file or the environment contributes,
//! and the raw form a file is read into, with its validation.

use vstd::prelude::*;

use super::diagnostic::{bare, text_of, ConfigDiagnostic, DiagnosticSeverity};
use crate::text::{decimal, push_decimal};

verus! {

#[verifier::external_type_specification]
#[verifier::external_body]
pub struct ExPathBuf(std::path::PathBuf);

/// `PathBuf::clone` gives the same path.
pub assume_specification[ <std::path::PathBuf as Clone>::clone ](path: &std::path::PathBuf) -> (r: std::path::PathBuf)
    ensures
        r == *path,
;

/// Schema version this build writes and reads.
pub const CURRENT_SCHEMA_VERSION: u32 = 1;

/// Version of this build, named in compatibility diagnostics.
pub const APP_VERSION: &'static str = "0.1.0";

/// Terminal color capability.
#[derive(Debug, Clone, Copy, PartialEq, Eq)]
pub enum ColorMode {
    /// Detect.
    Auto,
    /// 24-bit color.
    Truecolor,
    /// 256 colors.
    Ansi256,
    /// 16 colors.
    Ansi16,
    /// No color.
    NoColor,
}

/// Glyph set.
#[derive(Debug, Clone, Copy, PartialEq, Eq)]
pub enum GlyphMode {
    /// Detect.
    Auto,
    /// Unicode glyphs.
    Unicode,
    /// ASCII glyphs.
    Ascii,
}

/// Default preview tab.
#[derive(Debug, Clone, Copy, PartialEq, Eq)]
pub enum PreviewMode {
    /// Occurrence tree.
    Tree,
    /// Canonical XML.
    Xml,
    /// Fragment content.
    Content,
    /// Metadata.
    Metadata,
}

/// Fragment editor strategy.
#[derive(Debug, Clone, Copy, PartialEq, Eq)]
pub enum EditorMode {
    /// The built-in editor.
    Builtin,
    /// An external program.
    External,
}

/// Default search field.
#[derive(Debug, Clone, Copy, PartialEq, Eq)]
pub enum SearchField {
    /// Titles.
    Title,
    /// Content.
    Content,
    /// Both.
    Mixed,
}

/// Default search matcher.
#[derive(Debug, Clone, Copy, PartialEq, Eq)]
pub enum SearchMatcher {
    /// Fuzzy matching.
    Fuzzy,
    /// Exact substrings.
    Exact,
}

/// Store journal mode.
#[derive(Debug, Clone, Copy, PartialEq, Eq)]
pub enum JournalMode {
    /// Write-ahead log.
    Wal,
    /// Rollback journal.
    Delete,
}

/// Configuration spelling of a color mode.
pub open spec fn color_name(m: ColorMode) -> Seq<char> {
    match m {
        ColorMode::Auto => "auto"@,
        ColorMode::Truecolor => "truecolor"@,
        ColorMode::Ansi256 => "ansi256"@,
        ColorMode::Ansi16 => "ansi16"@,
        ColorMode::NoColor => "none"@,
    }
}

/// Configuration spelling of a glyph mode.
pub open spec fn glyph_name(m: GlyphMode) -> Seq<char> {
    match m {
        GlyphMode::Auto => "auto"@,
        GlyphMode::Unicode => "unicode"@,
        GlyphMode::Ascii => "ascii"@,
    }
}

/// Configuration spelling of a preview mode.
pub open spec fn preview_name(m: PreviewMode) -> Seq<char> {
    match m {
        PreviewMode::Tree => "tree"@,
        PreviewMode::Xml => "xml"@,
        PreviewMode::Content => "content"@,
        PreviewMode::Metadata => "metadata"@,
    }
}

/// Configuration spelling of an editor mode.
pub open spec fn editor_name(m: EditorMode) -> Seq<char> {
    match m {
        EditorMode::Builtin => "builtin"@,
        EditorMode::External => "external"@,
    }
}

/// Configuration spelling of a search field.
pub open spec fn field_name(m: SearchField) -> Seq<char> {
    match m {
        SearchField::Title => "title"@,
        SearchField::Content => "content"@,
        SearchField::Mixed => "mixed"@,
    }
}

/// Configuration spelling of a matcher.
pub open spec fn matcher_name(m: SearchMatcher) -> Seq<char> {
    match m {
        SearchMatcher::Fuzzy => "fuzzy"@,
        SearchMatcher::Exact => "exact"@,
    }
}

/// Configuration spelling of a journal mode.
pub open spec fn journal_name(m: JournalMode) -> Seq<char> {
    match m {
        JournalMode::Wal => "wal"@,
        JournalMode::Delete => "delete"@,
    }
}

impl ColorMode {
    /// The configuration spelling.
    pub fn as_str(self) -> (s: &'static str)
        ensures
            s@ == color_name(self),
    {
        match self {
            ColorMode::Auto => "auto",
            ColorMode::Truecolor => "truecolor",
            ColorMode::Ansi256 => "ansi256",
            ColorMode::Ansi16 => "ansi16",
            ColorMode::NoColor => "none",
        }
    }
}

impl GlyphMode {
    /// The configuration spelling.
    pub fn as_str(self) -> (s: &'static str)
        ensures
            s@ == glyph_name(self),
    {
        match self {
            GlyphMode::Auto => "auto",
            GlyphMode::Unicode => "unicode",
            GlyphMode::Ascii => "ascii",
        }
    }
}

impl PreviewMode {
    /// The configuration spelling.
    pub fn as_str(self) -> (s: &'static str)
        ensures
            s@ == preview_name(self),
    {
        match self {
            PreviewMode::Tree => "tree",
            PreviewMode::Xml => "xml",
            PreviewMode::Content => "content",
            PreviewMode::Metadata => "metadata",
        }
    }
}

impl EditorMode {
    /// The configuration spelling.
    pub fn as_str(self) -> (s: &'static str)
        ensures
            s@ == editor_name(self),
    {
        match self {
            EditorMode::Builtin => "builtin",
            EditorMode::External => "external",
        }
    }
}

impl SearchField {
    /// The configuration spelling.
    pub fn as_str(self) -> (s: &'static str)
        ensures
            s@ == field_name(self),
    {
        match self {
            SearchField::Title => "title",
            SearchField::Content => "content",
            SearchField::Mixed => "mixed",
        }
    }
}

impl SearchMatcher {
    /// The configuration spelling.
    pub fn as_str(self) -> (s: &'static str)
        ensures
            s@ == matcher_name(self),
    {
        match self {
            SearchMatcher::Fuzzy => "fuzzy",
            SearchMatcher::Exact => "exact",
        }
    }
}

impl JournalMode {
    /// The configuration spelling.
    pub fn as_str(self) -> (s: &'static str)
        ensures
            s@ == journal_name(self),
    {
        match self {
            JournalMode::Wal => "wal",
            JournalMode::Delete => "delete",
        }
    }
}

/// Custom palette: one color per semantic token.
#[derive(Debug, Clone, PartialEq, Eq)]
pub struct Theme {
    /// Surface.
    pub surface: String,
    /// Text.
    pub text: String,
    /// Muted text.
    pub muted: String,
    /// Selection.
    pub selection: String,
    /// Fragments.
    pub fragment: String,
    /// Prompts.
    pub prompt: String,
    /// Tags.
    pub tag: String,
    /// Success.
    pub success: String,
    /// Warning.
    pub warning: String,
    /// Error.
    pub error: String,
}

/// The token names of a theme, in declaration order.
pub open spec fn token_names() -> Seq<Seq<char>> {
    seq!["surface"@, "text"@, "muted"@, "selection"@, "fragment"@, "prompt"@, "tag"@, "success"@, "warning"@, "error"@]
}

/// The color of token `k` of a theme.
pub open spec fn token_color(t: Theme, k: int) -> Seq<char> {
    if k == 0 { t.surface@ } else if k == 1 { t.text@ } else if k == 2 { t.muted@ } else if k == 3 { t.selection@ }
    else if k == 4 { t.fragment@ } else if k == 5 { t.prompt@ } else if k == 6 { t.tag@ } else if k == 7 { t.success@ }
    else if k == 8 { t.warning@ } else { t.error@ }
}

impl Theme {
    /// Token `k` of the theme: its name and color.
    pub fn token(&self, k: usize) -> (r: (&'static str, &str))
        requires
            k < 10,
        ensures
            r.0@ == token_names()[k as int],
            r.1@ == token_color(*self, k as int),
    {
        match k {
            0 => ("surface", self.surface.as_str()),
            1 => ("text", self.text.as_str()),
            2 => ("muted", self.muted.as_str()),
            3 => ("selection", self.selection.as_str()),
            4 => ("fragment", self.fragment.as_str()),
            5 => ("prompt", self.prompt.as_str()),
            6 => ("tag", self.tag.as_str()),
            7 => ("success", self.success.as_str()),
            8 => ("warning", self.warning.as_str()),
            _ => ("error", self.error.as_str()),
        }
    }
}

/// An ASCII hexadecimal digit.
pub open spec fn hex_char(c: char) -> bool {
    ('0' <= c && c <= '9') || ('a' <= c && c <= 'f') || ('A' <= c && c <= 'F')
}

/// ASCII upper case letters lowered; other characters unchanged.
pub open spec fn ascii_lower(s: Seq<char>) -> Seq<char> {
    s.map_values(|c: char| if 'A' <= c && c <= 'Z' { ((c as u32) + 32) as char } else { c })
}

/// The named ANSI colors.
pub open spec fn ansi_names() -> Seq<Seq<char>> {
    seq!["black"@, "red"@, "green"@, "yellow"@, "blue"@, "magenta"@, "cyan"@, "white"@, "gray"@, "darkgray"@]
}

/// A color is `#` and six hexadecimal digits, or a named ANSI color in any ASCII case.
pub open spec fn valid_color_text(s: Seq<char>) -> bool {
    (s.len() == 7 && s[0] == '#' && forall|i: int| 1 <= i < 7 ==> hex_char(#[trigger] s[i])) || ansi_names().contains(
        ascii_lower(s),
    )
}

pub(crate) fn lower_char(c: char) -> (r: char)
    ensures
        r == if 'A' <= c && c <= 'Z' { ((c as u32) + 32) as char } else { c },
{
    if 'A' <= c && c <= 'Z' {
        let b = (c as u32) as u8;
        let l = (b + 32) as char;
        assert(l == ((c as u32) + 32) as char);
        l
    } else {
        c
    }
}

pub(crate) fn same_chars(a: &Vec<char>, b: &str) -> (r: bool)
    ensures
        r == (a@ == b@),
{
    let bv = crate::application::search::chars_of(b);
    if a.len() != bv.len() {
        return false;
    }
    let mut i: usize = 0;
    while i < a.len()
        invariant
            a@.len() == bv@.len(),
            bv@ == b@,
            0 <= i <= a@.len(),
            forall|k: int| 0 <= k < i ==> a@[k] == bv@[k],
        decreases a@.len() - i,
    {
        if a[i] != bv[i] {
            return false;
        }
        i = i + 1;
    }
    assert(a@ =~= bv@);
    true
}

/// Whether a theme color is valid (see `valid_color_text`).
pub fn valid_color(color: &str) -> (b: bool)
    ensures
        b == valid_color_text(color@),
{
    let cs = crate::application::search::chars_of(color);
    if cs.len() == 7 && cs[0] == '#' {
        let mut i: usize = 1;
        let mut all = true;
        while i < 7
            invariant
                cs@ == color@,
                cs@.len() == 7,
                1 <= i <= 7,
                all == forall|k: int| 1 <= k < i ==> hex_char(#[trigger] cs@[k]),
            decreases 7 - i,
        {
            let c = cs[i];
            if !(('0' <= c && c <= '9') || ('a' <= c && c <= 'f') || ('A' <= c && c <= 'F')) {
                all = false;
            }
            i = i + 1;
        }
        if all {
            return true;
        }
    }
    let mut lowered: Vec<char> = Vec::new();
    let mut i: usize = 0;
    while i < cs.len()
        invariant
            cs@ == color@,
            0 <= i <= cs@.len(),
            lowered@ == ascii_lower(cs@.take(i as int)),
        decreases cs@.len() - i,
    {
        lowered.push(lower_char(cs[i]));
        proof {
            assert(ascii_lower(cs@.take(i + 1)) =~= ascii_lower(cs@.take(i as int)).push(
                if 'A' <= cs@[i as int] && cs@[i as int] <= 'Z' { ((cs@[i as int] as u32) + 32) as char } else { cs@[i as int] },
            ));
        }
        i = i + 1;
    }
    proof {
        assert(cs@.take(cs@.len() as int) =~= cs@);
        reveal_strlit("black");
        reveal_strlit("red");
        reveal_strlit("green");
        reveal_strlit("yellow");
        reveal_strlit("blue");
        reveal_strlit("magenta");
        reveal_strlit("cyan");
        reveal_strlit("white");
        reveal_strlit("gray");
        reveal_strlit("darkgray");
    }
    let names = ["black", "red", "green", "yellow", "blue", "magenta", "cyan", "white", "gray", "darkgray"];
    let mut k: usize = 0;
    while k < 10
        invariant
            lowered@ == ascii_lower(color@),
            forall|j: int| 0 <= j < 10 ==> (#[trigger] names@[j])@ == ansi_names()[j],
            names@.len() == 10,
            0 <= k <= 10,
            forall|j: int| 0 <= j < k ==> ansi_names()[j] != lowered@,
        decreases 10 - k,
    {
        if same_chars(&lowered, names[k]) {
            proof {
                assert(ansi_names()[k as int] == lowered@);
            }
            return true;
        }
        k = k + 1;
    }
    false
}

/// Terminal user interface settings.
#[derive(Debug, Clone, PartialEq, Eq)]
pub struct UiConfig {
    /// Color capability.
    pub color: ColorMode,
    /// Glyph set.
    pub glyphs: GlyphMode,
    /// Theme name.
    pub theme: String,
    /// Mouse capture.
    pub mouse: bool,
    /// Default preview.
    pub preview: PreviewMode,
}

/// Fragment editor settings.
#[derive(Debug, Clone, PartialEq, Eq)]
pub struct EditorConfig {
    /// Strategy.
    pub mode: EditorMode,
    /// External editor argv, with one `{file}` argument.
    pub external: Option<Vec<String>>,
}

/// Store settings.
#[derive(Debug, Clone, PartialEq, Eq)]
pub struct DatabaseConfig {
    /// Database path.
    pub path: std::path::PathBuf,
    /// Busy timeout in milliseconds.
    pub busy_timeout_ms: u64,
    /// Migrate automatically.
    pub auto_migrate: bool,
    /// Back up before migrating.
    pub backup_before_migrate: bool,
    /// Backups kept.
    pub backup_keep: usize,
    /// Journal mode.
    pub journal_mode: JournalMode,
}

/// Search settings.
#[derive(Debug, Clone, PartialEq, Eq)]
pub struct SearchConfig {
    /// Field used when a statement names none.
    pub field: SearchField,
    /// Matching algorithm.
    pub matcher: SearchMatcher,
}

/// The effective configuration.
#[derive(Debug, Clone, PartialEq, Eq)]
pub struct Config {
    /// Schema version.
    pub schema_version: u32,
    /// Interface settings.
    pub ui: UiConfig,
    /// Editor settings.
    pub editor: EditorConfig,
    /// Store settings.
    pub database: DatabaseConfig,
    /// Search settings.
    pub search: SearchConfig,
    /// Custom themes by name; a name occurs once.
    pub themes: Vec<(String, Theme)>,
}

/// Platform directories and files the configuration refers to.
#[derive(Debug, Clone, PartialEq, Eq)]
pub struct ConfigPaths {
    /// User configuration file.
    pub user_config: std::path::PathBuf,
    /// Default database.
    pub database: std::path::PathBuf,
    /// State directory.
    pub state_dir: std::path::PathBuf,
    /// Cache directory.
    pub cache_dir: std::path::PathBuf,
    /// Backup directory.
    pub backup_dir: std::path::PathBuf,
}

/// `c` is the built-in configuration, with the database at the default path of `paths`.
pub open spec fn built_in(c: Config, paths: ConfigPaths) -> bool {
    &&& c.schema_version == CURRENT_SCHEMA_VERSION
    &&& c.ui.color == ColorMode::Auto
    &&& c.ui.glyphs == GlyphMode::Auto
    &&& c.ui.theme@ == "dark"@
    &&& c.ui.mouse
    &&& c.ui.preview == PreviewMode::Tree
    &&& c.editor.mode == EditorMode::Builtin
    &&& c.editor.external is None
    &&& c.database.path == paths.database
    &&& c.database.busy_timeout_ms == 2000
    &&& c.database.auto_migrate
    &&& c.database.backup_before_migrate
    &&& c.database.backup_keep == 3
    &&& c.database.journal_mode == JournalMode::Wal
    &&& c.search.field == SearchField::Mixed
    &&& c.search.matcher == SearchMatcher::Fuzzy
    &&& c.themes@.len() == 0
}

impl Config {
    /// The built-in configuration, storing the database at the platform's default path.
    pub fn defaults(paths: &ConfigPaths) -> (c: Self)
        ensures
            built_in(c, *paths),
    {
        Config {
            schema_version: CURRENT_SCHEMA_VERSION,
            ui: UiConfig {
                color: ColorMode::Auto,
                glyphs: GlyphMode::Auto,
                theme: "dark".to_owned(),
                mouse: true,
                preview: PreviewMode::Tree,
            },
            editor: EditorConfig { mode: EditorMode::Builtin, external: None },
            database: DatabaseConfig {
                path: paths.database.clone(),
                busy_timeout_ms: 2000,
                auto_migrate: true,
                backup_before_migrate: true,
                backup_keep: 3,
                journal_mode: JournalMode::Wal,
            },
            search: SearchConfig { field: SearchField::Mixed, matcher: SearchMatcher::Fuzzy },
            themes: Vec::new(),
        }
    }
}

/// What one layer of configuration sets; `None` leaves a setting as it was.
#[derive(Debug, Clone, PartialEq, Eq, Default)]
pub struct ConfigOverlay {
    /// `ui.color`.
    pub ui_color: Option<ColorMode>,
    /// `ui.glyphs`.
    pub ui_glyphs: Option<GlyphMode>,
    /// `ui.theme`.
    pub ui_theme: Option<String>,
    /// `ui.mouse`.
    pub ui_mouse: Option<bool>,
    /// `ui.preview`.
    pub ui_preview: Option<PreviewMode>,
    /// `editor.mode`.
    pub editor_mode: Option<EditorMode>,
    /// `editor.external`.
    pub editor_external: Option<Vec<String>>,
    /// `database.path`.
    pub database_path: Option<std::path::PathBuf>,
    /// `database.busy_timeout_ms`.
    pub database_busy_timeout_ms: Option<u64>,
    /// `database.auto_migrate`.
    pub database_auto_migrate: Option<bool>,
    /// `database.backup_before_migrate`.
    pub database_backup_before_migrate: Option<bool>,
    /// `database.backup_keep`.
    pub database_backup_keep: Option<usize>,
    /// `database.journal_mode`.
    pub database_journal_mode: Option<JournalMode>,
    /// `search.field`.
    pub search_field: Option<SearchField>,
    /// `search.matcher`.
    pub search_matcher: Option<SearchMatcher>,
    /// Custom themes by name.
    pub themes: Vec<(String, Theme)>,
}

/// The `[ui]` table of a file.
#[derive(Debug, Clone, Default)]
pub struct RawUi {
    /// Color mode.
    pub color: Option<ColorMode>,
    /// Glyphs.
    pub glyphs: Option<GlyphMode>,
    /// Theme.
    pub theme: Option<String>,
    /// Mouse.
    pub mouse: Option<bool>,
    /// Preview.
    pub preview: Option<PreviewMode>,
}

/// The `[editor]` table of a file.
#[derive(Debug, Clone, Default)]
pub struct RawEditor {
    /// Mode.
    pub mode: Option<EditorMode>,
    /// External argv.
    pub external: Option<Vec<String>>,
}

/// The `[database]` table of a file.
#[derive(Debug, Clone, Default)]
pub struct RawDatabase {
    /// Path.
    pub path: Option<std::path::PathBuf>,
    /// Busy timeout.
    pub busy_timeout_ms: Option<u64>,
    /// Auto migration.
    pub auto_migrate: Option<bool>,
    /// Backups.
    pub backup_before_migrate: Option<bool>,
    /// Backup count.
    pub backup_keep: Option<usize>,
    /// Journal mode.
    pub journal_mode: Option<JournalMode>,
}

/// The `[search]` table of a file.
#[derive(Debug, Clone, Default)]
pub struct RawSearch {
    /// Field.
    pub field: Option<SearchField>,
    /// Matcher.
    pub matcher: Option<SearchMatcher>,
}

/// A configuration file as read, before validation.
#[derive(Debug, Clone, Default)]
pub struct RawConfig {
    /// Schema version.
    pub schema_version: Option<u32>,
    /// `[ui]`.
    pub ui: Option<RawUi>,
    /// `[editor]`.
    pub editor: Option<RawEditor>,
    /// `[database]`.
    pub database: Option<RawDatabase>,
    /// `[search]`.
    pub search: Option<RawSearch>,
    /// `[themes.*]`, in name order.
    pub themes: Option<Vec<(String, Theme)>>,
}

/// An expected diagnostic: code, message, key, source, suggestion.
pub type Expected = (Seq<char>, Seq<char>, Option<Seq<char>>, Option<Seq<char>>, Option<Seq<char>>);

/// `d` is the error diagnostic `e`.
pub open spec fn is_expected(d: ConfigDiagnostic, e: Expected) -> bool {
    &&& d.code@ == e.0
    &&& d.severity == DiagnosticSeverity::Error
    &&& d.message@ == e.1
    &&& text_of(d.key) == e.2
    &&& text_of(d.source) == e.3
    &&& text_of(d.suggestion) == e.4
}

/// `ds` are the diagnostics `es`, in order.
pub open spec fn are_expected(ds: Seq<ConfigDiagnostic>, es: Seq<Expected>) -> bool {
    &&& ds.len() == es.len()
    &&& forall|i: int| 0 <= i < ds.len() ==> is_expected(#[trigger] ds[i], es[i])
}

/// How many arguments are exactly `{file}`.
pub open spec fn file_arguments(argv: Seq<String>) -> nat
    decreases argv.len(),
{
    if argv.len() == 0 {
        0
    } else {
        file_arguments(argv.drop_last()) + if argv.last()@ == "{file}"@ { 1nat } else { 0nat }
    }
}

/// The diagnostic for a schema newer than this build.
pub open spec fn schema_diagnostics(version: u32, source: Seq<char>) -> Seq<Expected> {
    if version > CURRENT_SCHEMA_VERSION {
        seq![(
            "E_CONFIG_SCHEMA_NEW"@,
            "configuration schema is newer than this executable: found="@ + decimal(version as nat)
                + ", max_supported="@ + decimal(CURRENT_SCHEMA_VERSION as nat) + ", path="@ + source
                + ", app_version="@ + APP_VERSION@,
            None,
            Some(source),
            Some("upgrade Promptr or select a compatible configuration"@),
        )]
    } else {
        seq![]
    }
}

/// The diagnostics of an external editor argv.
pub open spec fn editor_diagnostics(external: Option<Vec<String>>) -> Seq<Expected> {
    match external {
        Some(argv) => (if argv@.len() == 0 {
            seq![("E_CONFIG_EDITOR"@, "editor.external must contain at least one argv element"@, Some("editor.external"@), None, None)]
        } else {
            seq![]
        }) + (if file_arguments(argv@) != 1 {
            seq![(
                "E_CONFIG_EDITOR"@,
                "editor.external must contain `{file}` as a standalone argv element exactly once, found "@
                    + decimal(file_arguments(argv@)),
                Some("editor.external"@),
                None,
                None,
            )]
        } else {
            seq![]
        }),
        None => seq![],
    }
}

/// The diagnostics of the store's numeric settings.
pub open spec fn range_diagnostics(database: Option<RawDatabase>) -> Seq<Expected> {
    let (timeout, keep) = match database {
        Some(d) => (d.busy_timeout_ms, d.backup_keep),
        None => (None, None),
    };
    (if timeout == Some(0u64) {
        seq![("E_CONFIG_RANGE"@, "database.busy_timeout_ms must be greater than zero"@, Some("database.busy_timeout_ms"@), None, None)]
    } else {
        seq![]
    }) + (if keep == Some(0usize) {
        seq![("E_CONFIG_RANGE"@, "database.backup_keep must be greater than zero"@, Some("database.backup_keep"@), None, None)]
    } else {
        seq![]
    })
}

/// The diagnostics of the first `k` tokens of a theme.
pub open spec fn token_diagnostics(name: Seq<char>, t: Theme, k: int) -> Seq<Expected>
    decreases k,
{
    if k <= 0 {
        seq![]
    } else {
        token_diagnostics(name, t, k - 1) + if !valid_color_text(token_color(t, k - 1)) {
            seq![(
                "E_CONFIG_COLOR"@,
                "theme `"@ + name + "` token `"@ + token_names()[k - 1] + "` has invalid color `"@ + token_color(t, k - 1) + "`"@,
                Some("themes."@ + name + "."@ + token_names()[k - 1]),
                None,
                None,
            )]
        } else {
            seq![]
        }
    }
}

/// The diagnostics of the first `n` themes.
pub open spec fn theme_diagnostics(themes: Seq<(String, Theme)>, n: int) -> Seq<Expected>
    decreases n,
{
    if n <= 0 {
        seq![]
    } else {
        theme_diagnostics(themes, n - 1) + token_diagnostics(themes[n - 1].0@, themes[n - 1].1, 10)
    }
}

/// Every diagnostic a raw configuration read from `source` gets, in order.
pub open spec fn raw_diagnostics(raw: RawConfig, source: Seq<char>) -> Seq<Expected> {
    let version = match raw.schema_version {
        Some(v) => v,
        None => CURRENT_SCHEMA_VERSION,
    };
    let external = match raw.editor {
        Some(e) => e.external,
        None => None,
    };
    let themes = match raw.themes {
        Some(t) => theme_diagnostics(t@, t@.len() as int),
        None => seq![],
    };
    schema_diagnostics(version, source) + editor_diagnostics(external) + range_diagnostics(raw.database) + themes
}

/// The overlay a valid raw configuration becomes: each setting it holds, and its themes.
pub open spec fn overlay_of(raw: RawConfig, o: ConfigOverlay) -> bool {
    &&& match raw.ui {
        Some(u) => o.ui_color == u.color && o.ui_glyphs == u.glyphs && o.ui_theme == u.theme && o.ui_mouse == u.mouse
            && o.ui_preview == u.preview,
        None => o.ui_color is None && o.ui_glyphs is None && o.ui_theme is None && o.ui_mouse is None && o.ui_preview is None,
    }
    &&& match raw.editor {
        Some(e) => o.editor_mode == e.mode && o.editor_external == e.external,
        None => o.editor_mode is None && o.editor_external is None,
    }
    &&& match raw.database {
        Some(d) => o.database_path == d.path && o.database_busy_timeout_ms == d.busy_timeout_ms && o.database_auto_migrate
            == d.auto_migrate && o.database_backup_before_migrate == d.backup_before_migrate && o.database_backup_keep
            == d.backup_keep && o.database_journal_mode == d.journal_mode,
        None => o.database_path is None && o.database_busy_timeout_ms is None && o.database_auto_migrate is None
            && o.database_backup_before_migrate is None && o.database_backup_keep is None && o.database_journal_mode is None,
    }
    &&& match raw.search {
        Some(q) => o.search_field == q.field && o.search_matcher == q.matcher,
        None => o.search_field is None && o.search_matcher is None,
    }
    &&& match raw.themes {
        Some(t) => o.themes == t,
        None => o.themes@.len() == 0,
    }
}

fn count_file_arguments(argv: &Vec<String>) -> (n: usize)
    ensures
        n == file_arguments(argv@),
{
    let mut n: usize = 0;
    let mut i: usize = 0;
    proof {
        reveal_strlit("{file}");
    }
    while i < argv.len()
        invariant
            0 <= i <= argv@.len(),
            n == file_arguments(argv@.take(i as int)),
            n <= i,
        decreases argv@.len() - i,
    {
        proof {
            assert(argv@.take(i + 1).drop_last() =~= argv@.take(i as int));
        }
        let is_file = match crate::order::text_order(argv[i].as_str(), "{file}") {
            crate::order::Precedence::Same => true,
            _ => false,
        };
        if is_file {
            n = n + 1;
        }
        i = i + 1;
    }
    proof {
        assert(argv@.take(argv@.len() as int) =~= argv@);
    }
    n
}

fn push_theme_diagnostics(out: &mut Vec<ConfigDiagnostic>, name: &String, theme: &Theme)
    ensures
        final(out)@.len() == old(out)@.len() + token_diagnostics(name@, *theme, 10).len(),
        forall|i: int| 0 <= i < old(out)@.len() ==> #[trigger] final(out)@[i] == old(out)@[i],
        forall|i: int| 0 <= i < token_diagnostics(name@, *theme, 10).len() ==> is_expected(
            #[trigger] final(out)@[old(out)@.len() + i],
            token_diagnostics(name@, *theme, 10)[i],
        ),
{
    let ghost start = out@;
    let mut k: usize = 0;
    while k < 10
        invariant
            0 <= k <= 10,
            out@.len() == start.len() + token_diagnostics(name@, *theme, k as int).len(),
            forall|i: int| 0 <= i < start.len() ==> #[trigger] out@[i] == start[i],
            forall|i: int| 0 <= i < token_diagnostics(name@, *theme, k as int).len() ==> is_expected(
                #[trigger] out@[start.len() + i],
                token_diagnostics(name@, *theme, k as int)[i],
            ),
        decreases 10 - k,
    {
        let (token, color) = theme.token(k);
        let ghost before = out@;
        if !valid_color(color) {
            let mut message = String::new();
            message.push_str("theme `");
            message.push_str(name.as_str());
            message.push_str("` token `");
            message.push_str(token);
            message.push_str("` has invalid color `");
            message.push_str(color);
            message.push_str("`");
            let mut key = String::new();
            key.push_str("themes.");
            key.push_str(name.as_str());
            key.push_str(".");
            key.push_str(token);
            out.push(ConfigDiagnostic::error("E_CONFIG_COLOR", message.as_str()).with_key(key.as_str()));
        }
        proof {
            let prev = token_diagnostics(name@, *theme, k as int);
            let next = token_diagnostics(name@, *theme, k + 1);
            assert forall|i: int| 0 <= i < next.len() implies is_expected(#[trigger] out@[start.len() + i], next[i]) by {
                if i < prev.len() {
                    assert(out@[start.len() + i] == before[start.len() + i]);
                    assert(next[i] == prev[i]);
                }
            }
        }
        k = k + 1;
    }
}

proof fn lemma_expected_concat(a: Seq<ConfigDiagnostic>, ea: Seq<Expected>, b: Seq<ConfigDiagnostic>, eb: Seq<Expected>)
    requires
        are_expected(a, ea),
        are_expected(b, eb),
    ensures
        are_expected(a + b, ea + eb),
{
    assert forall|i: int| 0 <= i < (a + b).len() implies is_expected(#[trigger] (a + b)[i], (ea + eb)[i]) by {
        if i >= a.len() {
            assert(is_expected(b[i - a.len()], eb[i - a.len()]));
        }
    }
}

fn schema_part(version: u32, source: &str) -> (v: Vec<ConfigDiagnostic>)
    ensures
        are_expected(v@, schema_diagnostics(version, source@)),
{
    let mut diagnostics: Vec<ConfigDiagnostic> = Vec::new();
    if version > CURRENT_SCHEMA_VERSION {
        let mut message = String::new();
        message.push_str("configuration schema is newer than this executable: found=");
        push_decimal(&mut message, version as u128);
        message.push_str(", max_supported=");
        push_decimal(&mut message, CURRENT_SCHEMA_VERSION as u128);
        message.push_str(", path=");
        message.push_str(source);
        message.push_str(", app_version=");
        message.push_str(APP_VERSION);
        diagnostics.push(
            ConfigDiagnostic::error("E_CONFIG_SCHEMA_NEW", message.as_str()).with_source(source).with_suggestion(
                "upgrade Promptr or select a compatible configuration",
            ),
        );
    }
    diagnostics
}

fn editor_part(external: &Option<Vec<String>>) -> (v: Vec<ConfigDiagnostic>)
    ensures
        are_expected(v@, editor_diagnostics(*external)),
{
    let mut diagnostics: Vec<ConfigDiagnostic> = Vec::new();
    match external {
        Some(argv) => {
            if argv.len() == 0 {
                diagnostics.push(
                    ConfigDiagnostic::error("E_CONFIG_EDITOR", "editor.external must contain at least one argv element").with_key(
                        "editor.external",
                    ),
                );
            }
            let ghost first = diagnostics@;
            let placeholders = count_file_arguments(argv);
            if placeholders != 1 {
                let mut message = String::new();
                message.push_str("editor.external must contain `{file}` as a standalone argv element exactly once, found ");
                push_decimal(&mut message, placeholders as u128);
                diagnostics.push(ConfigDiagnostic::error("E_CONFIG_EDITOR", message.as_str()).with_key("editor.external"));
            }
            proof {
                if placeholders != 1 {
                    assert(diagnostics@[diagnostics@.len() - 1] == diagnostics@.last());
                    if first.len() > 0 {
                        assert(diagnostics@[0] == first[0]);
                    }
                }
            }
        },
        None => {},
    }
    diagnostics
}

fn range_part(database: &Option<RawDatabase>) -> (v: Vec<ConfigDiagnostic>)
    ensures
        are_expected(v@, range_diagnostics(*database)),
{
    let mut diagnostics: Vec<ConfigDiagnostic> = Vec::new();
    let (timeout, keep) = match database {
        Some(d) => (d.busy_timeout_ms, d.backup_keep),
        None => (None, None),
    };
    if timeout == Some(0u64) {
        diagnostics.push(
            ConfigDiagnostic::error("E_CONFIG_RANGE", "database.busy_timeout_ms must be greater than zero").with_key(
                "database.busy_timeout_ms",
            ),
        );
    }
    let ghost first = diagnostics@;
    if keep == Some(0usize) {
        diagnostics.push(
            ConfigDiagnostic::error("E_CONFIG_RANGE", "database.backup_keep must be greater than zero").with_key(
                "database.backup_keep",
            ),
        );
        proof {
            if first.len() > 0 {
                assert(diagnostics@[0] == first[0]);
            }
        }
    }
    diagnostics
}

fn themes_part(themes: &Option<Vec<(String, Theme)>>) -> (v: Vec<ConfigDiagnostic>)
    ensures
        are_expected(v@, match *themes {
            Some(t) => theme_diagnostics(t@, t@.len() as int),
            None => seq![],
        }),
{
    let mut diagnostics: Vec<ConfigDiagnostic> = Vec::new();
    match themes {
        Some(list) => {
            let mut n: usize = 0;
            while n < list.len()
                invariant
                    0 <= n <= list@.len(),
                    are_expected(diagnostics@, theme_diagnostics(list@, n as int)),
                decreases list@.len() - n,
            {
                let ghost before = diagnostics@;
                push_theme_diagnostics(&mut diagnostics, &list[n].0, &list[n].1);
                proof {
                    let next = theme_diagnostics(list@, n + 1);
                    let tok = token_diagnostics(list@[n as int].0@, list@[n as int].1, 10);
                    assert(next =~= theme_diagnostics(list@, n as int) + tok);
                    assert forall|i: int| 0 <= i < diagnostics@.len() implies is_expected(#[trigger] diagnostics@[i], next[i]) by {
                        if i < before.len() {
                            assert(diagnostics@[i] == before[i]);
                        } else {
                            let j = i - before.len();
                            assert(is_expected(diagnostics@[before.len() + j], tok[j]));
                        }
                    }
                }
                n = n + 1;
            }
        },
        None => {},
    }
    diagnostics
}

impl RawConfig {
    /// Validates a raw configuration whose source has no name.
    pub fn validate(self) -> (r: Result<ConfigOverlay, Vec<ConfigDiagnostic>>)
        ensures
            raw_diagnostics(self, "<memory>"@).len() == 0 ==> (r matches Ok(o) && overlay_of(self, o)),
            raw_diagnostics(self, "<memory>"@).len() > 0 ==> (r matches Err(ds) && are_expected(ds@, raw_diagnostics(self, "<memory>"@))),
    {
        self.validate_at("<memory>")
    }

    /// Validates a raw configuration read from `source`: every problem is reported, in
    /// order (see `raw_diagnostics`); without any, the settings become an overlay.
    pub fn validate_at(self, source: &str) -> (r: Result<ConfigOverlay, Vec<ConfigDiagnostic>>)
        ensures
            raw_diagnostics(self, source@).len() == 0 ==> (r matches Ok(o) && overlay_of(self, o)),
            raw_diagnostics(self, source@).len() > 0 ==> (r matches Err(ds) && are_expected(ds@, raw_diagnostics(self, source@))),
    {
        let ghost raw = self;
        let version = match self.schema_version {
            Some(v) => v,
            None => CURRENT_SCHEMA_VERSION,
        };
        let mut diagnostics = schema_part(version, source);
        let editor = match self.editor {
            Some(e) => e,
            None => RawEditor { mode: None, external: None },
        };
        let mut part = editor_part(&editor.external);
        let ghost (a, b) = (diagnostics@, part@);
        diagnostics.append(&mut part);
        proof {
            lemma_expected_concat(a, schema_diagnostics(version, source@), b, editor_diagnostics(editor.external));
        }
        let mut part = range_part(&self.database);
        let ghost (a, b) = (diagnostics@, part@);
        diagnostics.append(&mut part);
        proof {
            lemma_expected_concat(
                a,
                schema_diagnostics(version, source@) + editor_diagnostics(editor.external),
                b,
                range_diagnostics(raw.database),
            );
        }
        let mut part = themes_part(&self.themes);
        let ghost (a, b) = (diagnostics@, part@);
        diagnostics.append(&mut part);
        proof {
            lemma_expected_concat(
                a,
                schema_diagnostics(version, source@) + editor_diagnostics(editor.external) + range_diagnostics(raw.database),
                b,
                match raw.themes {
                    Some(t) => theme_diagnostics(t@, t@.len() as int),
                    None => seq![],
                },
            );
        }
        if diagnostics.len() > 0 {
            return Err(diagnostics);
        }
        let ui = match self.ui {
            Some(u) => u,
            None => RawUi { color: None, glyphs: None, theme: None, mouse: None, preview: None },
        };
        let database = match self.database {
            Some(d) => d,
            None => RawDatabase {
                path: None,
                busy_timeout_ms: None,
                auto_migrate: None,
                backup_before_migrate: None,
                backup_keep: None,
                journal_mode: None,
            },
        };
        let search = match self.search {
            Some(q) => q,
            None => RawSearch { field: None, matcher: None },
        };
        let themes = match self.themes {
            Some(t) => t,
            None => Vec::new(),
        };
        Ok(ConfigOverlay {
            ui_color: ui.color,
            ui_glyphs: ui.glyphs,
            ui_theme: ui.theme,
            ui_mouse: ui.mouse,
            ui_preview: ui.preview,
            editor_mode: editor.mode,
            editor_external: editor.external,
            database_path: database.path,
            database_busy_timeout_ms: database.busy_timeout_ms,
            database_auto_migrate: database.auto_migrate,
            database_backup_before_migrate: database.backup_before_migrate,
            database_backup_keep: database.backup_keep,
            database_journal_mode: database.journal_mode,
            search_field: search.field,
            search_matcher: search.matcher,
            themes,
        })
    }
}

/// The commented example that `config init` writes.
pub const INIT_EXAMPLE: &'static str = r#"# Promptr configuration. Every setting below is optional.
schema_version = 1

[ui]
# color = "auto" # auto | truecolor | ansi256 | ansi16 | none
# theme = "dark" # dark | light | monochrome | custom theme name
mouse = true

[editor]
mode = "builtin"
# To use an external editor, set mode = "external" and uncomment:
# external = ["nvim", "{file}"]

[database]
auto_migrate = true
backup_before_migrate = true

[search]
field = "mixed"
matcher = "fuzzy"
"#;

/// The commented example configuration (see `INIT_EXAMPLE`).
pub fn init_example() -> (s: &'static str)
    ensures
        s@ == INIT_EXAMPLE@,
{
    INIT_EXAMPLE
}

} // verus!
