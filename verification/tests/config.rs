use promptr::config::diagnostic::{ConfigDiagnostic, DiagnosticSeverity};
use promptr::config::document::{parse_config_head, read_document, SchemaField};
use promptr::config::layers::{apply_layer, set_provenance, validate_effective, ConfigLayer, ConfigSource, Provenance};
use promptr::config::environment::{environment_layers, EnvText, EnvironmentView};
use promptr::config::loaded::ConfigLoader;
use promptr::config::migration::{check_parsed, upgrade_steps, validate_standalone, MigrationOutcome};
use promptr::config::schema::{
    valid_color, ColorMode, Config, ConfigOverlay, ConfigPaths, EditorMode, RawConfig, RawDatabase, RawEditor, SearchField,
    Theme,
};
use promptr::config::text::{edit_distance, nearest, parse_color, parse_field};
use promptr::config::unknown::{unknown_key_diagnostics, TomlEntry, TomlValue};
use promptr::config::values::config_values;
use std::path::PathBuf;

fn paths() -> ConfigPaths {
    ConfigPaths {
        user_config: "c".into(),
        database: "d".into(),
        state_dir: "s".into(),
        cache_dir: "x".into(),
        backup_dir: "b".into(),
    }
}

fn theme(color: &str) -> Theme {
    Theme {
        surface: color.into(),
        text: color.into(),
        muted: color.into(),
        selection: color.into(),
        fragment: color.into(),
        prompt: color.into(),
        tag: color.into(),
        success: color.into(),
        warning: color.into(),
        error: color.into(),
    }
}

#[test]
fn builtin_is_the_editor_default() {
    assert_eq!(Config::defaults(&paths()).editor.mode, EditorMode::Builtin);
    assert_eq!(Config::defaults(&paths()).database.path, PathBuf::from("d"));
}

#[test]
fn external_editor_requires_exactly_one_placeholder() {
    let raw = RawConfig {
        editor: Some(RawEditor { mode: Some(EditorMode::External), external: Some(vec!["nvim".into()]) }),
        ..RawConfig::default()
    };
    assert!(raw.validate().unwrap_err().iter().any(|value| value.code == "E_CONFIG_EDITOR"));
}

#[test]
fn file_placeholder_must_be_a_standalone_argument() {
    let raw = RawConfig {
        editor: Some(RawEditor {
            mode: Some(EditorMode::External),
            external: Some(vec!["nvim".into(), "--file={file}".into()]),
        }),
        ..RawConfig::default()
    };
    assert!(raw.validate().is_err());
}

#[test]
fn newer_schema_and_ranges_are_reported_in_order() {
    let raw = RawConfig {
        schema_version: Some(9),
        database: Some(RawDatabase { busy_timeout_ms: Some(0), backup_keep: Some(0), ..RawDatabase::default() }),
        themes: Some(vec![("mine".into(), Theme { text: "#12345g".into(), ..theme("red") })]),
        ..RawConfig::default()
    };
    let ds = raw.validate_at("file.toml").unwrap_err();
    let codes: Vec<&str> = ds.iter().map(|d| d.code).collect();
    assert_eq!(codes, vec!["E_CONFIG_SCHEMA_NEW", "E_CONFIG_RANGE", "E_CONFIG_RANGE", "E_CONFIG_COLOR"]);
    assert_eq!(
        ds[0].message,
        "configuration schema is newer than this executable: found=9, max_supported=1, path=file.toml, app_version=0.1.0"
    );
    assert_eq!(ds[0].source.as_deref(), Some("file.toml"));
    assert_eq!(ds[3].message, "theme `mine` token `text` has invalid color `#12345g`");
    assert_eq!(ds[3].key.as_deref(), Some("themes.mine.text"));
    assert_eq!(ds[3].severity, DiagnosticSeverity::Error);
}

#[test]
fn valid_raw_config_becomes_an_overlay() {
    let raw = RawConfig {
        editor: Some(RawEditor { mode: Some(EditorMode::External), external: Some(vec!["vi".into(), "{file}".into()]) }),
        ..RawConfig::default()
    };
    let overlay = raw.validate().unwrap();
    assert_eq!(overlay.editor_mode, Some(EditorMode::External));
    assert_eq!(overlay.ui_color, None);
}

#[test]
fn colors_are_hex_or_named() {
    assert!(valid_color("#a1B2c3"));
    assert!(valid_color("DarkGray"));
    assert!(!valid_color("#a1B2c"));
    assert!(!valid_color("purple"));
}

#[test]
fn later_layers_win_and_retain_provenance() {
    let loader = ConfigLoader::new(paths());
    let user = ConfigOverlay { ui_color: Some(ColorMode::Ansi16), ..ConfigOverlay::default() };
    let cli = ConfigOverlay { ui_color: Some(ColorMode::NoColor), ..ConfigOverlay::default() };
    let loaded = loader
        .merge(vec![
            ConfigLayer { source: ConfigSource::UserFile("user.toml".into()), overlay: user },
            ConfigLayer { source: ConfigSource::Cli("--color".into()), overlay: cli },
        ])
        .unwrap();
    assert_eq!(loaded.config.ui.color, ColorMode::NoColor);
    let entry = &loaded.provenance.iter().find(|(k, _)| k == "ui.color").unwrap().1;
    assert_eq!(entry.source, ConfigSource::Cli("--color".into()));
    assert!(entry.overridden.iter().any(|source| matches!(source, ConfigSource::UserFile(_))));
}

#[test]
fn applying_layers_one_by_one_records_each_overridden_source() {
    let mut config = Config::defaults(&paths());
    let mut provenance: Vec<(String, Provenance)> = Vec::new();
    set_provenance(&mut provenance, "ui.color", &ConfigSource::Builtin);
    apply_layer(
        &mut config,
        &mut provenance,
        ConfigLayer {
            source: ConfigSource::Environment("PROMPTR_COLOR".into()),
            overlay: ConfigOverlay { ui_color: Some(ColorMode::Ansi16), ..ConfigOverlay::default() },
        },
    );
    apply_layer(
        &mut config,
        &mut provenance,
        ConfigLayer {
            source: ConfigSource::Cli("command line".into()),
            overlay: ConfigOverlay { ui_color: Some(ColorMode::NoColor), ..ConfigOverlay::default() },
        },
    );
    assert_eq!(config.ui.color, ColorMode::NoColor);
    let entry = &provenance.iter().find(|(k, _)| k == "ui.color").unwrap().1;
    assert_eq!(entry.source, ConfigSource::Cli("command line".into()));
    assert_eq!(
        entry.overridden,
        vec![ConfigSource::Builtin, ConfigSource::Environment("PROMPTR_COLOR".into())]
    );
}

#[test]
fn effective_configuration_is_checked_and_listed_in_key_order() {
    let mut config = Config::defaults(&paths());
    config.editor.mode = EditorMode::External;
    let ds = validate_effective(&config).unwrap_err();
    assert_eq!(ds[0].message, "external editor mode requires editor.external");
    config.editor.mode = EditorMode::Builtin;
    config.ui.theme = "custom".into();
    let ds = validate_effective(&config).unwrap_err();
    assert_eq!(ds[0].message, "selected custom theme `custom` is not defined");
    config.themes.push(("custom".into(), theme("black")));
    assert!(validate_effective(&config).is_ok());

    let values = config_values(&Config::defaults(&paths()));
    assert_eq!(values.len(), 16);
    assert!(values.contains(&("ui.theme".to_string(), "\"dark\"".to_string())));
    assert!(values.contains(&("editor.external".to_string(), "null".to_string())));
    assert!(values.contains(&("database.busy_timeout_ms".to_string(), "2000".to_string())));

    let loaded = ConfigLoader::new(paths())
        .merge(vec![ConfigLayer {
            source: ConfigSource::Cli("command line".into()),
            overlay: ConfigOverlay { ui_mouse: Some(false), ..ConfigOverlay::default() },
        }])
        .unwrap();
    let effective = loaded.effective();
    let keys: Vec<&str> = effective.entries.iter().map(|e| e.key.as_str()).collect();
    let mut sorted = keys.clone();
    sorted.sort();
    assert_eq!(keys, sorted);
    let mouse = loaded.explain("ui.mouse").unwrap();
    assert_eq!(mouse.value, "false");
    assert_eq!(mouse.provenance.source, ConfigSource::Cli("command line".into()));
    assert_eq!(mouse.provenance.overridden, vec![ConfigSource::Builtin]);
    assert!(loaded.explain("ui.nothing").is_none());
}

#[test]
fn unknown_key_has_edit_distance_suggestion() {
    // schema_version=1\n[ui]\ncolr='auto'\n
    let text = "schema_version=1\n[ui]\ncolr='auto'\n";
    let document = vec![
        entry("schema_version", None, TomlValue::Other(None)),
        entry("ui", None, TomlValue::Table(vec![entry("colr", None, TomlValue::Other(None))])),
    ];
    let diagnostics = unknown_key_diagnostics(&document, text, "test.toml");
    assert_eq!(diagnostics[0].suggestion.as_deref(), Some("did you mean `color`?"));
}

#[test]
fn edit_distance_and_nearest_key() {
    assert_eq!(edit_distance("kitten", "sitting"), 3);
    assert_eq!(edit_distance("", "abc"), 3);
    assert_eq!(nearest("colr", &["color", "glyphs", "theme"]), Some("color"));
    assert_eq!(nearest("zzzzzzzz", &["color"]), None);
    assert_eq!(nearest("mod", &["mode", "mood"]), Some("mode"));
    assert_eq!(parse_color("ansi256"), Ok(ColorMode::Ansi256));
    assert_eq!(parse_field("bogus"), Err("title|content|mixed"));
}

fn entry(key: &str, start: Option<usize>, value: TomlValue) -> TomlEntry {
    TomlEntry { key: key.to_string(), start, value }
}

fn theme_entries(extra: &str) -> Vec<TomlEntry> {
    let mut entries: Vec<TomlEntry> = [
        "surface", "text", "muted", "selection", "fragment", "prompt", "tag", "success", "warning", "error",
    ]
    .iter()
    .map(|k| entry(k, None, TomlValue::Other(None)))
    .collect();
    entries.push(entry(extra, None, TomlValue::Other(None)));
    entries
}

#[test]
fn inline_tables_receive_recursive_unknown_key_diagnostics() {
    // schema_version=1
    // ui={ color='auto', colr='auto' }
    // themes={ moe={ surface=..., error='red', warrning='red' } }
    let document = vec![
        entry("schema_version", None, TomlValue::Other(None)),
        entry(
            "ui",
            None,
            TomlValue::InlineTable(vec![entry("color", None, TomlValue::Other(None)), entry("colr", None, TomlValue::Other(None))]),
        ),
        entry(
            "themes",
            None,
            TomlValue::InlineTable(vec![entry("moe", None, TomlValue::InlineTable(theme_entries("warrning")))]),
        ),
    ];
    let parsed = unknown_key_diagnostics(&document, "", "inline.toml");
    let keys = parsed.iter().filter_map(|value| value.key.as_deref()).collect::<Vec<_>>();
    assert!(keys.contains(&"ui.colr"));
    assert!(keys.contains(&"themes.moe.warrning"));
}

#[test]
fn unknown_keys_report_lines_and_skip_unchecked_values() {
    let text = "schema_version=1\n[ui]\ncolor='auto'\n\n[extra]\nx=1\n";
    let document = vec![
        entry("schema_version", Some(0), TomlValue::Other(None)),
        entry("ui", Some(17), TomlValue::Table(vec![entry("color", Some(22), TomlValue::Other(None))])),
        entry("extra", Some(36), TomlValue::Table(vec![entry("x", Some(44), TomlValue::Other(None))])),
        entry("schema_version", Some(0), TomlValue::Table(vec![entry("nested", Some(1), TomlValue::Other(None))])),
        entry(
            "themes",
            Some(400),
            TomlValue::InlineTable(vec![entry("plain", None, TomlValue::Table(theme_entries("bogus")))]),
        ),
    ];
    let ds = unknown_key_diagnostics(&document, text, "user.toml");
    assert_eq!(ds.len(), 1);
    assert_eq!(ds[0].code, "E_CONFIG_UNKNOWN_KEY");
    assert_eq!(ds[0].message, "unknown configuration key `extra`");
    assert_eq!(ds[0].key.as_deref(), Some("extra"));
    assert_eq!(ds[0].source.as_deref(), Some("user.toml:5"));
    assert_eq!(ds[0].suggestion, None);
    let themes = vec![entry(
        "themes",
        None,
        TomlValue::Table(vec![entry("dark2", Some(9999), TomlValue::Table(theme_entries("bogus")))]),
    )];
    let ds = unknown_key_diagnostics(&themes, "a\nb", "t.toml");
    assert_eq!(ds.len(), 1);
    assert_eq!(ds[0].key.as_deref(), Some("themes.dark2.bogus"));
    assert_eq!(ds[0].source.as_deref(), Some("t.toml"));
    assert_eq!(ds[0].suggestion, None);
}

#[test]
fn diagnostics_render_with_suggestion() {
    let d = ConfigDiagnostic::error("E_X", "broken").with_suggestion("fix it");
    assert_eq!(d.text(), "E_X: broken (fix it)");
    assert_eq!(ConfigDiagnostic::warning("W_Y", "careful").text(), "W_Y: careful");
}

fn unset_environment() -> EnvironmentView {
    EnvironmentView {
        database: None,
        color: EnvText::Unset,
        glyphs: EnvText::Unset,
        editor_mode: EnvText::Unset,
        search_field: EnvText::Unset,
    }
}

#[test]
fn environment_preserves_non_unicode_paths_and_diagnoses_enum_values() {
    let path = PathBuf::from("databases/ÿ-catalog.sqlite");
    let environment = EnvironmentView {
        database: Some(path.clone()),
        color: EnvText::NotUnicode,
        ..unset_environment()
    };
    let mut diagnostics = Vec::new();
    let layers = environment_layers(&environment, &mut diagnostics);
    assert_eq!(layers[0].overlay.database_path, Some(path));
    assert!(diagnostics.iter().any(|value| value.code == "E_CONFIG_ENV_UNICODE"));
}

#[test]
fn environment_enum_variables_become_layers_or_errors_in_order() {
    let environment = EnvironmentView {
        database: None,
        color: EnvText::Text("ansi16".into()),
        glyphs: EnvText::Text("emoji".into()),
        editor_mode: EnvText::NotUnicode,
        search_field: EnvText::Text("title".into()),
    };
    let mut diagnostics = vec![ConfigDiagnostic::warning("W_EARLIER", "kept")];
    let layers = environment_layers(&environment, &mut diagnostics);
    assert_eq!(layers.len(), 2);
    assert_eq!(layers[0].source, ConfigSource::Environment("PROMPTR_COLOR".into()));
    assert_eq!(layers[0].overlay, ConfigOverlay { ui_color: Some(ColorMode::Ansi16), ..ConfigOverlay::default() });
    assert_eq!(layers[1].source, ConfigSource::Environment("PROMPTR_SEARCH_FIELD".into()));
    assert_eq!(layers[1].overlay.search_field, Some(SearchField::Title));
    assert_eq!(diagnostics.len(), 3);
    assert_eq!(diagnostics[0].code, "W_EARLIER");
    assert_eq!(diagnostics[1].code, "E_CONFIG_ENV");
    assert_eq!(diagnostics[1].message, "PROMPTR_GLYPHS has invalid enum value `emoji`");
    assert_eq!(diagnostics[1].source.as_deref(), Some("PROMPTR_GLYPHS"));
    assert_eq!(diagnostics[2].code, "E_CONFIG_ENV_UNICODE");
    assert_eq!(
        diagnostics[2].message,
        "PROMPTR_EDITOR_MODE must be valid Unicode because it selects an enum value"
    );
}

#[test]
fn complete_precedence_chain_is_field_wise() {
    let user = ConfigLayer {
        source: ConfigSource::UserFile("user.toml".into()),
        overlay: ConfigOverlay { ui_color: Some(ColorMode::Ansi16), ..ConfigOverlay::default() },
    };
    let explicit = ConfigLayer {
        source: ConfigSource::ExplicitFile("explicit.toml".into()),
        overlay: ConfigOverlay { ui_color: Some(ColorMode::Ansi256), ..ConfigOverlay::default() },
    };
    let environment = EnvironmentView { color: EnvText::Text("truecolor".into()), ..unset_environment() };
    let cli = ConfigOverlay { ui_color: Some(ColorMode::NoColor), ..ConfigOverlay::default() };
    let loaded = ConfigLoader::new(paths()).load_layers(vec![user, explicit], Vec::new(), &environment, cli).unwrap();
    assert_eq!(loaded.config.ui.color, ColorMode::NoColor);
    let chain = &loaded.provenance.iter().find(|(k, _)| k == "ui.color").unwrap().1;
    assert!(matches!(chain.source, ConfigSource::Cli(_)));
    assert!(matches!(chain.overridden[0], ConfigSource::Builtin));
    assert!(matches!(chain.overridden[1], ConfigSource::UserFile(_)));
    assert!(matches!(chain.overridden[2], ConfigSource::ExplicitFile(_)));
    assert!(matches!(chain.overridden[3], ConfigSource::Environment(_)));
}

#[test]
fn load_fails_with_every_diagnostic_when_one_is_an_error() {
    let environment = EnvironmentView { glyphs: EnvText::Text("fancy".into()), ..unset_environment() };
    let warning = ConfigDiagnostic::warning("W_CONFIG_MIGRATION_AVAILABLE", "old schema");
    let loader = ConfigLoader::new(paths());
    let ds = loader
        .load_layers(Vec::new(), vec![warning.clone()], &environment, ConfigOverlay::default())
        .err()
        .unwrap();
    assert_eq!(ds.len(), 2);
    assert_eq!(ds[0].code, "W_CONFIG_MIGRATION_AVAILABLE");
    assert_eq!(ds[1].code, "E_CONFIG_ENV");
    let loaded = loader
        .load_layers(Vec::new(), vec![warning], &unset_environment(), ConfigOverlay::default())
        .unwrap();
    assert_eq!(loaded.diagnostics.len(), 1);
    assert_eq!(loaded.config.ui.color, ColorMode::Auto);
    let entry = &loaded.provenance.iter().find(|(k, _)| k == "ui.color").unwrap().1;
    assert_eq!(entry.source, ConfigSource::Builtin);
}

#[test]
fn schema_upgrades_write_each_version_in_turn() {
    assert_eq!(upgrade_steps(0).unwrap(), vec![1]);
    assert!(upgrade_steps(1).unwrap().is_empty());
    assert!(upgrade_steps(7).unwrap().is_empty());
}

#[test]
fn standalone_check_names_the_file_in_cross_setting_errors() {
    let raw = RawConfig {
        schema_version: Some(1),
        editor: Some(RawEditor { mode: Some(EditorMode::External), external: None }),
        ..RawConfig::default()
    };
    let ds = validate_standalone(raw, "cfg/user.toml", paths(), PathBuf::from("cfg/user.toml")).err().unwrap();
    assert_eq!(ds.len(), 1);
    assert_eq!(ds[0].code, "E_CONFIG_EDITOR");
    assert_eq!(ds[0].source.as_deref(), Some("cfg/user.toml"));
    assert!(validate_standalone(RawConfig::default(), "x.toml", paths(), PathBuf::from("x.toml")).is_ok());
}

#[test]
fn check_reports_unknown_keys_before_anything_else() {
    let unknown = ConfigDiagnostic::error("E_CONFIG_UNKNOWN_KEY", "unknown configuration key `x`");
    let r = check_parsed(vec![unknown], RawConfig::default(), 0, "x.toml", paths(), PathBuf::from("x.toml"));
    assert_eq!(r.err().unwrap()[0].code, "E_CONFIG_UNKNOWN_KEY");
    let r = check_parsed(Vec::new(), RawConfig::default(), 0, "x.toml", paths(), PathBuf::from("x.toml"));
    assert_eq!(r.unwrap(), MigrationOutcome::WouldMigrate { from: 0, to: 1 });
    let r = check_parsed(Vec::new(), RawConfig::default(), 1, "x.toml", paths(), PathBuf::from("x.toml"));
    assert_eq!(r.unwrap(), MigrationOutcome::AlreadyCurrent);
}

#[test]
fn init_example_is_a_current_schema_file() {
    let text = promptr::config::schema::init_example();
    assert!(text.starts_with("# Promptr configuration."));
    assert!(text.contains("schema_version = 1\n"));
    assert!(text.contains("[search]\nfield = \"mixed\"\nmatcher = \"fuzzy\"\n"));
}

#[test]
fn schema_version_must_be_a_schema_number() {
    let errors = read_document(SchemaField::Integer(-1), &vec![], "schema_version = -1", "f.toml").err().unwrap();
    assert_eq!(errors.len(), 1);
    assert_eq!(errors[0].code, "E_CONFIG_TYPE");
    assert_eq!(errors[0].key.as_deref(), Some("schema_version"));
    let errors = read_document(SchemaField::Other, &vec![], "schema_version = \"1\"", "f.toml").err().unwrap();
    assert_eq!(errors[0].code, "E_CONFIG_TYPE");
}

#[test]
fn newer_schema_is_refused_and_current_schema_is_read() {
    let errors = read_document(SchemaField::Integer(2), &vec![], "schema_version = 2", "f.toml").err().unwrap();
    assert!(errors.iter().any(|d| d.code == "E_CONFIG_SCHEMA_NEW" || d.code.starts_with("E_CONFIG")));
    let head = read_document(SchemaField::Absent, &vec![entry("bogus", Some(0), TomlValue::Other(None))], "bogus = 1", "f.toml")
        .unwrap();
    assert_eq!(head.input_schema_version, 1);
    assert!(head.upgrades.is_empty());
    assert_eq!(head.diagnostics.len(), 1);
    let old = read_document(SchemaField::Integer(0), &vec![], "schema_version = 0", "f.toml").unwrap();
    assert_eq!(old.input_schema_version, 0);
    assert_eq!(old.upgrades, vec![1]);
}

#[test]
fn configuration_text_is_parsed_and_read_by_the_library() {
    let errors = parse_config_head("schema_version = ", "f.toml").err().unwrap();
    assert_eq!(errors.len(), 1);
    assert_eq!(errors[0].code, "E_CONFIG_PARSE");
    assert_eq!(errors[0].source.as_deref(), Some("f.toml"));
    let errors = parse_config_head("schema_version = \"1\"\n", "f.toml").err().unwrap();
    assert_eq!(errors[0].code, "E_CONFIG_TYPE");
    let errors = parse_config_head("schema_version = 7\n", "f.toml").err().unwrap();
    assert!(errors.iter().all(|d| d.code.starts_with("E_CONFIG")));
    let head = parse_config_head("schema_version = 1\n[ui]\ncolr = \"red\"\n", "f.toml").unwrap();
    assert_eq!(head.input_schema_version, 1);
    assert!(head.upgrades.is_empty());
    assert_eq!(head.diagnostics.len(), 1);
    assert!(head.diagnostics[0].message.contains("colr"));
    let old = parse_config_head("schema_version = 0\n", "f.toml").unwrap();
    assert_eq!(old.upgrades, vec![1]);
    let fresh = parse_config_head("", "f.toml").unwrap();
    assert_eq!(fresh.input_schema_version, 1);
    assert!(fresh.diagnostics.is_empty());
}

#[test]
fn edit_distance_is_symmetric_and_zero_on_equal_texts() {
    assert_eq!(edit_distance("colr", "color"), 1);
    assert_eq!(edit_distance("color", "colr"), 1);
    assert_eq!(edit_distance("theme", "theme"), 0);
    assert_eq!(edit_distance("glyphs", ""), 6);
}

#[test]
fn newer_schema_returns_compatibility_diagnostic() {
    let diagnostic = parse_config_head("schema_version=99\n[ui]\ncolor='a-future-enum'\n", "future.toml")
        .err()
        .unwrap()
        .remove(0);
    assert_eq!(diagnostic.code, "E_CONFIG_SCHEMA_NEW");
    assert!(diagnostic.message.contains("found=99"));
    assert!(diagnostic.message.contains("max_supported=1"));
    assert!(diagnostic.message.contains("path=future.toml"));
    assert!(diagnostic.message.contains("app_version="));
}
