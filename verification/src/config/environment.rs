//! Configuration from environment variables: the database path, and the variables that
//! select an enum value, each a layer of its own.

use vstd::prelude::*;

use super::diagnostic::ConfigDiagnostic;
use super::layers::{source_view, ConfigLayer, ConfigSource};
use super::schema::{
    color_name, editor_name, field_name, glyph_name, is_expected, ColorMode, ConfigOverlay, EditorMode, Expected,
    GlyphMode, SearchField,
};
use super::text::{parse_color, parse_editor, parse_field, parse_glyphs};

verus! {

/// What the environment holds for a variable that selects an enum value.
#[derive(Debug, Clone, PartialEq, Eq)]
pub enum EnvText {
    /// The variable is not set.
    Unset,
    /// The variable holds Unicode text.
    Text(String),
    /// The variable is set but is not Unicode.
    NotUnicode,
}

/// The configuration variables of the environment.
#[derive(Debug, Clone)]
pub struct EnvironmentView {
    /// `PROMPTR_DATABASE`, kept as a path whatever its encoding.
    pub database: Option<std::path::PathBuf>,
    /// `PROMPTR_COLOR`.
    pub color: EnvText,
    /// `PROMPTR_GLYPHS`.
    pub glyphs: EnvText,
    /// `PROMPTR_EDITOR_MODE`.
    pub editor_mode: EnvText,
    /// `PROMPTR_SEARCH_FIELD`.
    pub search_field: EnvText,
}

/// A setting that an environment variable selects by name.
#[derive(Debug, Clone, Copy, PartialEq, Eq)]
pub enum EnvSetting {
    /// `ui.color` from `PROMPTR_COLOR`.
    Color,
    /// `ui.glyphs` from `PROMPTR_GLYPHS`.
    Glyphs,
    /// `editor.mode` from `PROMPTR_EDITOR_MODE`.
    EditorMode,
    /// `search.field` from `PROMPTR_SEARCH_FIELD`.
    SearchField,
}

/// The variable that selects a setting.
pub open spec fn variable(s: EnvSetting) -> Seq<char> {
    match s {
        EnvSetting::Color => "PROMPTR_COLOR"@,
        EnvSetting::Glyphs => "PROMPTR_GLYPHS"@,
        EnvSetting::EditorMode => "PROMPTR_EDITOR_MODE"@,
        EnvSetting::SearchField => "PROMPTR_SEARCH_FIELD"@,
    }
}

/// A text names a value of the setting.
pub open spec fn names_value(s: EnvSetting, t: Seq<char>) -> bool {
    match s {
        EnvSetting::Color => exists|m: ColorMode| color_name(m) == t,
        EnvSetting::Glyphs => exists|m: GlyphMode| glyph_name(m) == t,
        EnvSetting::EditorMode => exists|m: EditorMode| editor_name(m) == t,
        EnvSetting::SearchField => exists|m: SearchField| field_name(m) == t,
    }
}

/// The overlay sets nothing.
pub open spec fn sets_nothing(o: ConfigOverlay) -> bool {
    &&& o.ui_color is None
    &&& o.ui_glyphs is None
    &&& o.ui_theme is None
    &&& o.ui_mouse is None
    &&& o.ui_preview is None
    &&& o.editor_mode is None
    &&& o.editor_external is None
    &&& o.database_path is None
    &&& o.database_busy_timeout_ms is None
    &&& o.database_auto_migrate is None
    &&& o.database_backup_before_migrate is None
    &&& o.database_backup_keep is None
    &&& o.database_journal_mode is None
    &&& o.search_field is None
    &&& o.search_matcher is None
    &&& o.themes@.len() == 0
}

/// The overlay sets the setting to the value named `t`, and nothing else.
pub open spec fn sets_only(o: ConfigOverlay, s: EnvSetting, t: Seq<char>) -> bool {
    match s {
        EnvSetting::Color => o.ui_color matches Some(m) && color_name(m) == t && sets_nothing(
            ConfigOverlay { ui_color: None, ..o },
        ),
        EnvSetting::Glyphs => o.ui_glyphs matches Some(m) && glyph_name(m) == t && sets_nothing(
            ConfigOverlay { ui_glyphs: None, ..o },
        ),
        EnvSetting::EditorMode => o.editor_mode matches Some(m) && editor_name(m) == t && sets_nothing(
            ConfigOverlay { editor_mode: None, ..o },
        ),
        EnvSetting::SearchField => o.search_field matches Some(m) && field_name(m) == t && sets_nothing(
            ConfigOverlay { search_field: None, ..o },
        ),
    }
}

/// The source of a layer is the environment variable `name`.
pub open spec fn from_variable(l: ConfigLayer, name: Seq<char>) -> bool {
    source_view(l.source) == (3int, None::<std::path::PathBuf>, name)
}

/// The layer of an enum variable: the text it holds, where that names a value.
pub open spec fn enum_layer(s: EnvSetting, t: EnvText) -> Option<Seq<char>> {
    match t {
        EnvText::Text(x) => if names_value(s, x@) {
            Some(x@)
        } else {
            None
        },
        _ => None,
    }
}

/// The error of an enum variable: not Unicode, or naming no value.
pub open spec fn enum_errors(s: EnvSetting, t: EnvText) -> Seq<Expected> {
    match t {
        EnvText::Unset => seq![],
        EnvText::NotUnicode => seq![(
            "E_CONFIG_ENV_UNICODE"@,
            variable(s) + " must be valid Unicode because it selects an enum value"@,
            None,
            Some(variable(s)),
            None,
        )],
        EnvText::Text(x) => if names_value(s, x@) {
            seq![]
        } else {
            seq![("E_CONFIG_ENV"@, variable(s) + " has invalid enum value `"@ + x@ + "`"@, None, Some(variable(s)), None)]
        },
    }
}

/// The enum variables in the order they are read.
pub open spec fn enum_vars(env: EnvironmentView) -> Seq<(EnvSetting, EnvText)> {
    seq![
        (EnvSetting::Color, env.color),
        (EnvSetting::Glyphs, env.glyphs),
        (EnvSetting::EditorMode, env.editor_mode),
        (EnvSetting::SearchField, env.search_field),
    ]
}

/// The layers that the enum variables give, in order: setting and text.
pub open spec fn enum_layers(vars: Seq<(EnvSetting, EnvText)>) -> Seq<(EnvSetting, Seq<char>)>
    decreases vars.len(),
{
    if vars.len() == 0 {
        seq![]
    } else {
        enum_layers(vars.drop_last()) + match enum_layer(vars.last().0, vars.last().1) {
            Some(t) => seq![(vars.last().0, t)],
            None => seq![],
        }
    }
}

/// The errors that the enum variables give, in order.
pub open spec fn environment_errors(vars: Seq<(EnvSetting, EnvText)>) -> Seq<Expected>
    decreases vars.len(),
{
    if vars.len() == 0 {
        seq![]
    } else {
        environment_errors(vars.drop_last()) + enum_errors(vars.last().0, vars.last().1)
    }
}

/// `ds` are `before` followed by the errors `es`.
pub open spec fn appended(before: Seq<ConfigDiagnostic>, es: Seq<Expected>, ds: Seq<ConfigDiagnostic>) -> bool {
    &&& ds.len() == before.len() + es.len()
    &&& ds.take(before.len() as int) == before
    &&& forall|i: int| 0 <= i < es.len() ==> is_expected(#[trigger] ds[before.len() + i], es[i])
}

/// `layers` are the enum layers `plan`, each from its variable and setting only its setting.
pub open spec fn enum_layers_are(layers: Seq<ConfigLayer>, plan: Seq<(EnvSetting, Seq<char>)>) -> bool {
    &&& layers.len() == plan.len()
    &&& forall|i: int|
        0 <= i < plan.len() ==> from_variable(#[trigger] layers[i], variable(plan[i].0)) && sets_only(
            layers[i].overlay,
            plan[i].0,
            plan[i].1,
        )
}

fn empty_overlay() -> (o: ConfigOverlay)
    ensures
        sets_nothing(o),
{
    ConfigOverlay {
        ui_color: None,
        ui_glyphs: None,
        ui_theme: None,
        ui_mouse: None,
        ui_preview: None,
        editor_mode: None,
        editor_external: None,
        database_path: None,
        database_busy_timeout_ms: None,
        database_auto_migrate: None,
        database_backup_before_migrate: None,
        database_backup_keep: None,
        database_journal_mode: None,
        search_field: None,
        search_matcher: None,
        themes: Vec::new(),
    }
}

fn variable_name(s: EnvSetting) -> (n: &'static str)
    ensures
        n@ == variable(s),
{
    match s {
        EnvSetting::Color => "PROMPTR_COLOR",
        EnvSetting::Glyphs => "PROMPTR_GLYPHS",
        EnvSetting::EditorMode => "PROMPTR_EDITOR_MODE",
        EnvSetting::SearchField => "PROMPTR_SEARCH_FIELD",
    }
}

/// The overlay that selects the value named `text`, if `text` names one.
fn overlay_for(s: EnvSetting, text: &str) -> (r: Option<ConfigOverlay>)
    ensures
        match r {
            Some(o) => names_value(s, text@) && sets_only(o, s, text@),
            None => !names_value(s, text@),
        },
{
    let mut o = empty_overlay();
    match s {
        EnvSetting::Color => match parse_color(text) {
            Ok(m) => {
                o.ui_color = Some(m);
                Some(o)
            },
            Err(_) => None,
        },
        EnvSetting::Glyphs => match parse_glyphs(text) {
            Ok(m) => {
                o.ui_glyphs = Some(m);
                Some(o)
            },
            Err(_) => None,
        },
        EnvSetting::EditorMode => match parse_editor(text) {
            Ok(m) => {
                o.editor_mode = Some(m);
                Some(o)
            },
            Err(_) => None,
        },
        EnvSetting::SearchField => match parse_field(text) {
            Ok(m) => {
                o.search_field = Some(m);
                Some(o)
            },
            Err(_) => None,
        },
    }
}

/// Reads one enum variable: a layer where it names a value of its setting, an error where it
/// is not Unicode or names none, nothing where it is unset.
pub fn add_enum_environment(
    setting: EnvSetting,
    value: &EnvText,
    layers: &mut Vec<ConfigLayer>,
    diagnostics: &mut Vec<ConfigDiagnostic>,
)
    ensures
        match enum_layer(setting, *value) {
            Some(t) => final(layers)@.len() == old(layers)@.len() + 1 && final(layers)@.drop_last() == old(layers)@
                && from_variable(final(layers)@.last(), variable(setting)) && sets_only(
                final(layers)@.last().overlay,
                setting,
                t,
            ),
            None => final(layers)@ == old(layers)@,
        },
        appended(old(diagnostics)@, enum_errors(setting, *value), final(diagnostics)@),
{
    let name = variable_name(setting);
    match value {
        EnvText::Unset => {
            proof {
                assert(diagnostics@.take(diagnostics@.len() as int) =~= diagnostics@);
            }
        },
        EnvText::NotUnicode => {
            let mut message = name.to_owned();
            message.push_str(" must be valid Unicode because it selects an enum value");
            let d = ConfigDiagnostic::error("E_CONFIG_ENV_UNICODE", message.as_str()).with_source(name);
            let ghost before = diagnostics@;
            diagnostics.push(d);
            proof {
                assert(diagnostics@.take(before.len() as int) =~= before);
                assert(diagnostics@[before.len() as int] == d);
            }
        },
        EnvText::Text(text) => {
            match overlay_for(setting, text.as_str()) {
                Some(overlay) => {
                    let ghost before = layers@;
                    layers.push(ConfigLayer { source: ConfigSource::Environment(name.to_owned()), overlay });
                    proof {
                        assert(layers@.drop_last() =~= before);
                        assert(diagnostics@.take(diagnostics@.len() as int) =~= diagnostics@);
                    }
                },
                None => {
                    let mut message = name.to_owned();
                    message.push_str(" has invalid enum value `");
                    message.push_str(text.as_str());
                    message.push_str("`");
                    let d = ConfigDiagnostic::error("E_CONFIG_ENV", message.as_str()).with_source(name);
                    let ghost before = diagnostics@;
                    diagnostics.push(d);
                    proof {
                        assert(diagnostics@.take(before.len() as int) =~= before);
                        assert(diagnostics@[before.len() as int] == d);
                    }
                },
            }
        },
    }
}

/// The overlay sets the database path to `p`, and nothing else.
pub open spec fn sets_database(o: ConfigOverlay, p: std::path::PathBuf) -> bool {
    o.database_path == Some(p) && sets_nothing(ConfigOverlay { database_path: None, ..o })
}

/// `layers` are the layers of the environment: `PROMPTR_DATABASE` where set, then one per enum
/// variable that names a value (see `enum_layers`).
pub open spec fn environment_gives(environment: EnvironmentView, layers: Seq<ConfigLayer>) -> bool {
    &&& environment.database matches Some(p) ==> layers.len() >= 1 && from_variable(layers[0], "PROMPTR_DATABASE"@)
        && sets_database(layers[0].overlay, p) && enum_layers_are(layers.skip(1), enum_layers(enum_vars(environment)))
    &&& environment.database is None ==> enum_layers_are(layers, enum_layers(enum_vars(environment)))
}

proof fn lemma_appended_chain(
    a: Seq<ConfigDiagnostic>,
    e1: Seq<Expected>,
    b: Seq<ConfigDiagnostic>,
    e2: Seq<Expected>,
    c: Seq<ConfigDiagnostic>,
)
    requires
        appended(a, e1, b),
        appended(b, e2, c),
    ensures
        appended(a, e1 + e2, c),
{
    assert(c.take(a.len() as int) =~= a) by {
        assert forall|i: int| 0 <= i < a.len() implies c[i] == a[i] by {
            assert(c.take(b.len() as int)[i] == b[i]);
            assert(b.take(a.len() as int)[i] == a[i]);
        }
    }
    assert forall|i: int| 0 <= i < (e1 + e2).len() implies is_expected(#[trigger] c[a.len() + i], (e1 + e2)[i]) by {
        if i < e1.len() {
            assert(c.take(b.len() as int)[a.len() + i] == b[a.len() + i]);
            assert(is_expected(b[a.len() + i], e1[i]));
        } else {
            let j = i - e1.len();
            assert(is_expected(c[b.len() + j], e2[j]));
        }
    }
}

fn value_of(environment: &EnvironmentView, s: EnvSetting) -> (v: &EnvText)
    ensures
        *v == match s {
            EnvSetting::Color => environment.color,
            EnvSetting::Glyphs => environment.glyphs,
            EnvSetting::EditorMode => environment.editor_mode,
            EnvSetting::SearchField => environment.search_field,
        },
{
    match s {
        EnvSetting::Color => &environment.color,
        EnvSetting::Glyphs => &environment.glyphs,
        EnvSetting::EditorMode => &environment.editor_mode,
        EnvSetting::SearchField => &environment.search_field,
    }
}

/// The layers of the environment, in order: `PROMPTR_DATABASE` where set, then one per enum
/// variable that names a value (see `enum_layers`); the errors of the enum variables are
/// appended to `diagnostics` (see `environment_errors`).
pub fn environment_layers(environment: &EnvironmentView, diagnostics: &mut Vec<ConfigDiagnostic>) -> (layers: Vec<
    ConfigLayer,
>)
    ensures
        appended(old(diagnostics)@, environment_errors(enum_vars(*environment)), final(diagnostics)@),
        environment_gives(*environment, layers@),
{
    let mut layers: Vec<ConfigLayer> = Vec::new();
    if let Some(path) = &environment.database {
        let mut overlay = empty_overlay();
        overlay.database_path = Some(path.clone());
        layers.push(ConfigLayer { source: ConfigSource::Environment("PROMPTR_DATABASE".to_owned()), overlay });
    }
    let base = layers.len();
    let ghost vars = enum_vars(*environment);
    let ghost start = diagnostics@;
    let settings = [EnvSetting::Color, EnvSetting::Glyphs, EnvSetting::EditorMode, EnvSetting::SearchField];
    proof {
        assert(vars.take(0) =~= Seq::<(EnvSetting, EnvText)>::empty());
        assert(layers@.skip(base as int) =~= Seq::<ConfigLayer>::empty());
        assert(diagnostics@.take(start.len() as int) =~= start);
    }
    let mut i: usize = 0;
    while i < 4
        invariant
            0 <= i <= 4,
            vars == enum_vars(*environment),
            settings@ == seq![EnvSetting::Color, EnvSetting::Glyphs, EnvSetting::EditorMode, EnvSetting::SearchField],
            base <= layers@.len(),
            environment.database is Some ==> base == 1 && from_variable(layers@[0], "PROMPTR_DATABASE"@) && sets_database(
                layers@[0].overlay,
                environment.database.unwrap(),
            ),
            environment.database is None ==> base == 0,
            enum_layers_are(layers@.skip(base as int), enum_layers(vars.take(i as int))),
            appended(start, environment_errors(vars.take(i as int)), diagnostics@),
            start == old(diagnostics)@,
        decreases 4 - i,
    {
        let setting = settings[i];
        let value = value_of(environment, setting);
        proof {
            assert(vars[i as int] == (setting, *value));
        }
        let ghost layers_before = layers@;
        let ghost diags_before = diagnostics@;
        add_enum_environment(setting, value, &mut layers, diagnostics);
        proof {
            lemma_appended_chain(start, environment_errors(vars.take(i as int)), diags_before, enum_errors(setting, *value), diagnostics@);
            assert(vars.take(i + 1).drop_last() =~= vars.take(i as int));
            assert(vars.take(i + 1).last() == (setting, *value));
            if environment.database is Some {
                assert(layers_before.len() >= 1);
                if layers@.len() > layers_before.len() {
                    assert(layers@.drop_last()[0] == layers_before[0]);
                }
                assert(layers@[0] == layers_before[0]);
            }
            let plan = enum_layers(vars.take(i as int));
            let next = enum_layers(vars.take(i + 1));
            match enum_layer(setting, *value) {
                Some(t) => {
                    assert(next =~= plan + seq![(setting, t)]);
                    assert(layers@.skip(base as int).drop_last() =~= layers_before.skip(base as int)) by {
                        assert(layers@.drop_last() == layers_before);
                    }
                    assert forall|k: int| 0 <= k < next.len() implies from_variable(
                        #[trigger] layers@.skip(base as int)[k],
                        variable(next[k].0),
                    ) && sets_only(layers@.skip(base as int)[k].overlay, next[k].0, next[k].1) by {
                        if k < plan.len() {
                            assert(layers@.skip(base as int)[k] == layers_before.skip(base as int)[k]);
                        }
                    }
                },
                None => {
                    assert(next =~= plan);
                },
            }
        }
        i = i + 1;
    }
    proof {
        assert(vars.take(4) =~= vars);
        if environment.database is Some {
            assert(base == 1);
        } else {
            assert(layers@.skip(0) =~= layers@);
        }
    }
    layers
}

} // verus!
