//! Layered configuration: the built-in settings, then each layer in turn, with the source
//! of every setting recorded; and the checks on the result.

use vstd::prelude::*;

use super::diagnostic::{bare, ConfigDiagnostic, DiagnosticSeverity};
use super::schema::{
    are_expected, file_arguments, is_expected, token_names, Config, ConfigOverlay, ConfigPaths, EditorMode, Expected,
    Theme,
};

verus! {

/// Where a setting came from.
#[derive(Debug, PartialEq, Eq)]
pub enum ConfigSource {
    /// The built-in defaults.
    Builtin,
    /// The user's configuration file.
    UserFile(std::path::PathBuf),
    /// A file named on the command line or in the environment.
    ExplicitFile(std::path::PathBuf),
    /// An environment variable.
    Environment(String),
    /// The command line.
    Cli(String),
}

/// A source, as a plain value: its kind, its path, its name.
pub type SourceView = (int, Option<std::path::PathBuf>, Seq<char>);

/// The plain value of a source.
pub open spec fn source_view(s: ConfigSource) -> SourceView {
    match s {
        ConfigSource::Builtin => (0, None, Seq::empty()),
        ConfigSource::UserFile(p) => (1, Some(p), Seq::empty()),
        ConfigSource::ExplicitFile(p) => (2, Some(p), Seq::empty()),
        ConfigSource::Environment(t) => (3, None, t@),
        ConfigSource::Cli(t) => (4, None, t@),
    }
}

impl Clone for ConfigSource {
    fn clone(&self) -> (r: Self)
        ensures
            source_view(r) == source_view(*self),
    {
        match self {
            ConfigSource::Builtin => ConfigSource::Builtin,
            ConfigSource::UserFile(p) => ConfigSource::UserFile(p.clone()),
            ConfigSource::ExplicitFile(p) => ConfigSource::ExplicitFile(p.clone()),
            ConfigSource::Environment(t) => ConfigSource::Environment(t.clone()),
            ConfigSource::Cli(t) => ConfigSource::Cli(t.clone()),
        }
    }
}

/// The source of a setting and the sources it overrode, oldest first.
#[derive(Debug, PartialEq, Eq)]
pub struct Provenance {
    /// Winning source.
    pub source: ConfigSource,
    /// Overridden sources.
    pub overridden: Vec<ConfigSource>,
}

/// A provenance as a plain value.
pub type ProvenanceView = (SourceView, Seq<SourceView>);

/// The plain value of a provenance.
pub open spec fn provenance_view(p: Provenance) -> ProvenanceView {
    (source_view(p.source), p.overridden@.map_values(|s: ConfigSource| source_view(s)))
}

impl Clone for Provenance {
    fn clone(&self) -> (r: Self)
        ensures
            provenance_view(r) == provenance_view(*self),
    {
        let mut overridden: Vec<ConfigSource> = Vec::new();
        let mut i: usize = 0;
        while i < self.overridden.len()
            invariant
                0 <= i <= self.overridden@.len(),
                overridden@.len() == i,
                forall|k: int| 0 <= k < i ==> source_view(#[trigger] overridden@[k]) == source_view(self.overridden@[k]),
            decreases self.overridden@.len() - i,
        {
            overridden.push(self.overridden[i].clone());
            i = i + 1;
        }
        proof {
            assert(overridden@.map_values(|s: ConfigSource| source_view(s)) =~= self.overridden@.map_values(
                |s: ConfigSource| source_view(s),
            ));
        }
        Provenance { source: self.source.clone(), overridden }
    }
}

/// One layer: where it comes from and what it sets.
#[derive(Debug)]
pub struct ConfigLayer {
    /// Source.
    pub source: ConfigSource,
    /// Settings.
    pub overlay: ConfigOverlay,
}

/// The provenance recorded for a key: the first entry with that key.
pub open spec fn provenance_of(map: Seq<(String, Provenance)>, k: Seq<char>) -> Option<ProvenanceView>
    decreases map.len(),
{
    if map.len() == 0 {
        None
    } else if map[0].0@ == k {
        Some(provenance_view(map[0].1))
    } else {
        provenance_of(map.drop_first(), k)
    }
}

/// A key set by `source` over what it had: the previous source joins the overridden ones.
pub open spec fn overridden_by(previous: Option<ProvenanceView>, source: SourceView) -> ProvenanceView {
    match previous {
        Some(p) => (source, p.1.push(p.0)),
        None => (source, Seq::empty()),
    }
}

/// The provenance of `k` after `keys` were set, in order, by `source`.
pub open spec fn provenance_after(
    before: Seq<(String, Provenance)>,
    keys: Seq<Seq<char>>,
    source: SourceView,
    k: Seq<char>,
) -> Option<ProvenanceView>
    decreases keys.len(),
{
    if keys.len() == 0 {
        provenance_of(before, k)
    } else {
        let previous = provenance_after(before, keys.drop_last(), source, k);
        if keys.last() == k {
            Some(overridden_by(previous, source))
        } else {
            previous
        }
    }
}

proof fn lemma_provenance_of_set(map: Seq<(String, Provenance)>, p: int, entry: (String, Provenance), k: Seq<char>)
    requires
        0 <= p < map.len(),
        map[p].0@ == entry.0@,
        forall|j: int| 0 <= j < p ==> (#[trigger] map[j]).0@ != entry.0@,
    ensures
        provenance_of(map.update(p, entry), k) == if k == entry.0@ {
            Some(provenance_view(entry.1))
        } else {
            provenance_of(map, k)
        },
    decreases map.len(),
{
    if p > 0 {
        assert(map.update(p, entry).drop_first() =~= map.drop_first().update(p - 1, entry));
        assert forall|j: int| 0 <= j < p - 1 implies (#[trigger] map.drop_first()[j]).0@ != entry.0@ by {
            assert(map.drop_first()[j] == map[j + 1]);
        }
        lemma_provenance_of_set(map.drop_first(), p - 1, entry, k);
    } else {
        assert(map.update(p, entry).drop_first() =~= map.drop_first());
    }
}

proof fn lemma_provenance_of_push(map: Seq<(String, Provenance)>, entry: (String, Provenance), k: Seq<char>)
    requires
        forall|j: int| 0 <= j < map.len() ==> (#[trigger] map[j]).0@ != entry.0@,
    ensures
        provenance_of(map.push(entry), k) == if k == entry.0@ {
            Some(provenance_view(entry.1))
        } else {
            provenance_of(map, k)
        },
    decreases map.len(),
{
    if map.len() > 0 {
        assert(map.push(entry).drop_first() =~= map.drop_first().push(entry));
        assert forall|j: int| 0 <= j < map.drop_first().len() implies (#[trigger] map.drop_first()[j]).0@ != entry.0@ by {
            assert(map.drop_first()[j] == map[j + 1]);
        }
        lemma_provenance_of_push(map.drop_first(), entry, k);
    } else {
        assert(map.push(entry).drop_first() =~= map);
    }
}

proof fn lemma_provenance_of_first(map: Seq<(String, Provenance)>, p: int, k: Seq<char>)
    requires
        0 <= p < map.len(),
        map[p].0@ == k,
        forall|j: int| 0 <= j < p ==> (#[trigger] map[j]).0@ != k,
    ensures
        provenance_of(map, k) == Some(provenance_view(map[p].1)),
    decreases map.len(),
{
    if p > 0 {
        assert forall|j: int| 0 <= j < p - 1 implies (#[trigger] map.drop_first()[j]).0@ != k by {
            assert(map.drop_first()[j] == map[j + 1]);
        }
        lemma_provenance_of_first(map.drop_first(), p - 1, k);
    }
}

proof fn lemma_provenance_of_absent(map: Seq<(String, Provenance)>, k: Seq<char>)
    requires
        forall|j: int| 0 <= j < map.len() ==> (#[trigger] map[j]).0@ != k,
    ensures
        provenance_of(map, k) is None,
    decreases map.len(),
{
    if map.len() > 0 {
        assert forall|j: int| 0 <= j < map.drop_first().len() implies (#[trigger] map.drop_first()[j]).0@ != k by {
            assert(map.drop_first()[j] == map[j + 1]);
        }
        lemma_provenance_of_absent(map.drop_first(), k);
    }
}

/// Records that `source` set `key`: a previous source of the key joins the overridden ones.
pub fn set_provenance(map: &mut Vec<(String, Provenance)>, key: &str, source: &ConfigSource)
    ensures
        forall|k: Seq<char>| #[trigger] provenance_of(final(map)@, k) == if k == key@ {
            Some(overridden_by(provenance_of(old(map)@, k), source_view(*source)))
        } else {
            provenance_of(old(map)@, k)
        },
{
    let mut p: usize = 0;
    while p < map.len()
        invariant
            map@ == old(map)@,
            0 <= p <= map@.len(),
            forall|j: int| 0 <= j < p ==> (#[trigger] map@[j]).0@ != key@,
        decreases map@.len() - p,
    {
        let same = match crate::order::text_order(map[p].0.as_str(), key) {
            crate::order::Precedence::Same => true,
            _ => false,
        };
        if same {
            let previous = map[p].1.clone();
            let ghost before = map@;
            let mut overridden = previous.overridden;
            let ghost prev_view = provenance_view(before[p as int].1);
            overridden.push(previous.source);
            let entry = (key.to_owned(), Provenance { source: source.clone(), overridden });
            proof {
                lemma_provenance_of_first(before, p as int, key@);
                assert(provenance_view(entry.1) == overridden_by(Some(prev_view), source_view(*source))) by {
                    assert(entry.1.overridden@.map_values(|s: ConfigSource| source_view(s)) =~= prev_view.1.push(prev_view.0));
                }
                assert forall|k: Seq<char>| #[trigger] provenance_of(before.update(p as int, entry), k) == if k == key@ {
                    Some(overridden_by(provenance_of(before, k), source_view(*source)))
                } else {
                    provenance_of(before, k)
                } by {
                    lemma_provenance_of_set(before, p as int, entry, k);
                }
            }
            map.set(p, entry);
            return;
        }
        p = p + 1;
    }
    let entry = (key.to_owned(), Provenance { source: source.clone(), overridden: Vec::new() });
    proof {
        lemma_provenance_of_absent(map@, key@);
        assert forall|k: Seq<char>| #[trigger] provenance_of(map@.push(entry), k) == if k == key@ {
            Some(provenance_view(entry.1))
        } else {
            provenance_of(map@, k)
        } by {
            lemma_provenance_of_push(map@, entry, k);
        }
        assert(entry.1.overridden@.map_values(|s: ConfigSource| source_view(s)) =~= Seq::<SourceView>::empty());
    }
    map.push(entry);
}

/// The theme of a name: the first entry with that name.
pub open spec fn theme_of(themes: Seq<(String, Theme)>, name: Seq<char>) -> Option<Theme>
    decreases themes.len(),
{
    if themes.len() == 0 {
        None
    } else if themes[0].0@ == name {
        Some(themes[0].1)
    } else {
        theme_of(themes.drop_first(), name)
    }
}

/// The theme of a name after the themes of a list were inserted in order.
pub open spec fn theme_after(before: Seq<(String, Theme)>, added: Seq<(String, Theme)>, name: Seq<char>) -> Option<Theme>
    decreases added.len(),
{
    if added.len() == 0 {
        theme_of(before, name)
    } else if added.last().0@ == name {
        Some(added.last().1)
    } else {
        theme_after(before, added.drop_last(), name)
    }
}

proof fn lemma_theme_of_set(themes: Seq<(String, Theme)>, p: int, entry: (String, Theme), k: Seq<char>)
    requires
        0 <= p < themes.len(),
        themes[p].0@ == entry.0@,
        forall|j: int| 0 <= j < p ==> (#[trigger] themes[j]).0@ != entry.0@,
    ensures
        theme_of(themes.update(p, entry), k) == if k == entry.0@ { Some(entry.1) } else { theme_of(themes, k) },
    decreases themes.len(),
{
    if p > 0 {
        assert(themes.update(p, entry).drop_first() =~= themes.drop_first().update(p - 1, entry));
        assert forall|j: int| 0 <= j < p - 1 implies (#[trigger] themes.drop_first()[j]).0@ != entry.0@ by {
            assert(themes.drop_first()[j] == themes[j + 1]);
        }
        lemma_theme_of_set(themes.drop_first(), p - 1, entry, k);
    } else {
        assert(themes.update(p, entry).drop_first() =~= themes.drop_first());
    }
}

proof fn lemma_theme_of_push(themes: Seq<(String, Theme)>, entry: (String, Theme), k: Seq<char>)
    requires
        forall|j: int| 0 <= j < themes.len() ==> (#[trigger] themes[j]).0@ != entry.0@,
    ensures
        theme_of(themes.push(entry), k) == if k == entry.0@ { Some(entry.1) } else { theme_of(themes, k) },
    decreases themes.len(),
{
    if themes.len() > 0 {
        assert(themes.push(entry).drop_first() =~= themes.drop_first().push(entry));
        assert forall|j: int| 0 <= j < themes.drop_first().len() implies (#[trigger] themes.drop_first()[j]).0@ != entry.0@ by {
            assert(themes.drop_first()[j] == themes[j + 1]);
        }
        lemma_theme_of_push(themes.drop_first(), entry, k);
    } else {
        assert(themes.push(entry).drop_first() =~= themes);
    }
}

/// Inserts a theme, replacing one of the same name.
pub fn insert_theme(themes: &mut Vec<(String, Theme)>, name: String, theme: Theme)
    ensures
        forall|k: Seq<char>| #[trigger] theme_of(final(themes)@, k) == if k == name@ { Some(theme) } else { theme_of(old(themes)@, k) },
{
    let mut p: usize = 0;
    while p < themes.len()
        invariant
            themes@ == old(themes)@,
            0 <= p <= themes@.len(),
            forall|j: int| 0 <= j < p ==> (#[trigger] themes@[j]).0@ != name@,
        decreases themes@.len() - p,
    {
        let same = match crate::order::text_order(themes[p].0.as_str(), name.as_str()) {
            crate::order::Precedence::Same => true,
            _ => false,
        };
        if same {
            let ghost before = themes@;
            let ghost entry = (name, theme);
            proof {
                assert forall|k: Seq<char>| #[trigger] theme_of(before.update(p as int, entry), k) == if k == name@ {
                    Some(theme)
                } else {
                    theme_of(before, k)
                } by {
                    lemma_theme_of_set(before, p as int, entry, k);
                }
            }
            themes.set(p, (name, theme));
            return;
        }
        p = p + 1;
    }
    proof {
        assert forall|k: Seq<char>| #[trigger] theme_of(themes@.push((name, theme)), k) == if k == name@ {
            Some(theme)
        } else {
            theme_of(themes@, k)
        } by {
            lemma_theme_of_push(themes@, (name, theme), k);
        }
    }
    themes.push((name, theme));
}

/// The key of token `k` of a theme.
pub open spec fn theme_key(name: Seq<char>, k: int) -> Seq<char> {
    "themes."@ + name + "."@ + token_names()[k]
}

/// The keys of the first `k` tokens of a theme.
pub open spec fn token_keys(name: Seq<char>, k: int) -> Seq<Seq<char>>
    decreases k,
{
    if k <= 0 {
        Seq::empty()
    } else {
        token_keys(name, k - 1).push(theme_key(name, k - 1))
    }
}

/// The keys of the tokens of the first `n` themes.
pub open spec fn theme_keys(themes: Seq<(String, Theme)>, n: int) -> Seq<Seq<char>>
    decreases n,
{
    if n <= 0 {
        Seq::empty()
    } else {
        theme_keys(themes, n - 1) + token_keys(themes[n - 1].0@, 10)
    }
}


/// `acc` with `key` added when `set`.
pub open spec fn push_if(acc: Seq<Seq<char>>, set: bool, key: Seq<char>) -> Seq<Seq<char>> {
    if set {
        acc.push(key)
    } else {
        acc
    }
}

/// The keys a layer sets, in the order they are applied.
pub open spec fn layer_keys(o: ConfigOverlay) -> Seq<Seq<char>> {
    setting_keys(o) + theme_keys(o.themes@, o.themes@.len() as int)
}

/// A setting after an optional override.
pub open spec fn over<T>(value: Option<T>, previous: T) -> T {
    match value {
        Some(v) => v,
        None => previous,
    }
}

/// `after` is `before` with every setting of `o` applied, themes inserted in order.
pub open spec fn applied(before: Config, o: ConfigOverlay, after: Config) -> bool {
    &&& after.schema_version == before.schema_version
    &&& after.ui.color == over(o.ui_color, before.ui.color)
    &&& after.ui.glyphs == over(o.ui_glyphs, before.ui.glyphs)
    &&& after.ui.theme == over(o.ui_theme, before.ui.theme)
    &&& after.ui.mouse == over(o.ui_mouse, before.ui.mouse)
    &&& after.ui.preview == over(o.ui_preview, before.ui.preview)
    &&& after.editor.mode == over(o.editor_mode, before.editor.mode)
    &&& after.editor.external == match o.editor_external {
        Some(v) => Some(v),
        None => before.editor.external,
    }
    &&& after.database.path == over(o.database_path, before.database.path)
    &&& after.database.busy_timeout_ms == over(o.database_busy_timeout_ms, before.database.busy_timeout_ms)
    &&& after.database.auto_migrate == over(o.database_auto_migrate, before.database.auto_migrate)
    &&& after.database.backup_before_migrate == over(o.database_backup_before_migrate, before.database.backup_before_migrate)
    &&& after.database.backup_keep == over(o.database_backup_keep, before.database.backup_keep)
    &&& after.database.journal_mode == over(o.database_journal_mode, before.database.journal_mode)
    &&& after.search.field == over(o.search_field, before.search.field)
    &&& after.search.matcher == over(o.search_matcher, before.search.matcher)
    &&& forall|k: Seq<char>| #[trigger] theme_of(after.themes@, k) == theme_after(before.themes@, o.themes@, k)
}

fn record(
    map: &mut Vec<(String, Provenance)>,
    key: &str,
    source: &ConfigSource,
    Ghost(before): Ghost<Seq<(String, Provenance)>>,
    Ghost(keys): Ghost<Seq<Seq<char>>>,
)
    requires
        forall|k: Seq<char>| #[trigger] provenance_of(old(map)@, k) == provenance_after(before, keys, source_view(*source), k),
    ensures
        forall|k: Seq<char>| #[trigger] provenance_of(final(map)@, k) == provenance_after(before, keys.push(key@), source_view(*source), k),
{
    set_provenance(map, key, source);
    proof {
        assert forall|k: Seq<char>| #[trigger] provenance_of(map@, k) == provenance_after(before, keys.push(key@), source_view(*source), k) by {
            assert(keys.push(key@).drop_last() =~= keys);
        }
    }
}

/// The name of token `k` of a theme.
pub fn token_name(k: usize) -> (s: &'static str)
    requires
        k < 10,
    ensures
        s@ == token_names()[k as int],
{
    match k {
        0 => "surface",
        1 => "text",
        2 => "muted",
        3 => "selection",
        4 => "fragment",
        5 => "prompt",
        6 => "tag",
        7 => "success",
        8 => "warning",
        _ => "error",
    }
}

fn record_theme(
    map: &mut Vec<(String, Provenance)>,
    name: &String,
    source: &ConfigSource,
    Ghost(before): Ghost<Seq<(String, Provenance)>>,
    Ghost(keys): Ghost<Seq<Seq<char>>>,
)
    requires
        forall|k: Seq<char>| #[trigger] provenance_of(old(map)@, k) == provenance_after(before, keys, source_view(*source), k),
    ensures
        forall|k: Seq<char>| #[trigger] provenance_of(final(map)@, k) == provenance_after(
            before,
            keys + token_keys(name@, 10),
            source_view(*source),
            k,
        ),
{
    let mut t: usize = 0;
    while t < 10
        invariant
            0 <= t <= 10,
            forall|k: Seq<char>| #[trigger] provenance_of(map@, k) == provenance_after(
                before,
                keys + token_keys(name@, t as int),
                source_view(*source),
                k,
            ),
        decreases 10 - t,
    {
        let mut key = String::new();
        key.push_str("themes.");
        key.push_str(name.as_str());
        key.push_str(".");
        key.push_str(token_name(t));
        proof {
            assert(key@ == theme_key(name@, t as int));
            assert(keys + token_keys(name@, t + 1) =~= (keys + token_keys(name@, t as int)).push(key@));
        }
        record(map, key.as_str(), source, Ghost(before), Ghost(keys + token_keys(name@, t as int)));
        t = t + 1;
    }
}

/// The keys of the plain settings a layer sets.
pub open spec fn setting_keys(o: ConfigOverlay) -> Seq<Seq<char>> {
    push_if(push_if(push_if(push_if(push_if(push_if(push_if(push_if(push_if(push_if(push_if(push_if(push_if(push_if(push_if(Seq::empty(), o.ui_color is Some, "ui.color"@), o.ui_glyphs is Some, "ui.glyphs"@), o.ui_theme is Some, "ui.theme"@), o.ui_mouse is Some, "ui.mouse"@), o.ui_preview is Some, "ui.preview"@), o.editor_mode is Some, "editor.mode"@), o.editor_external is Some, "editor.external"@), o.database_path is Some, "database.path"@), o.database_busy_timeout_ms is Some, "database.busy_timeout_ms"@), o.database_auto_migrate is Some, "database.auto_migrate"@), o.database_backup_before_migrate is Some, "database.backup_before_migrate"@), o.database_backup_keep is Some, "database.backup_keep"@), o.database_journal_mode is Some, "database.journal_mode"@), o.search_field is Some, "search.field"@), o.search_matcher is Some, "search.matcher"@)
}

fn note(keys: &mut Vec<&'static str>, set: bool, key: &'static str)
    ensures
        key_texts(final(keys)@) == push_if(key_texts(old(keys)@), set, key@),
{
    if set {
        keys.push(key);
        assert(key_texts(keys@) =~= key_texts(old(keys)@).push(key@));
    }
}

fn record_keys(provenance: &mut Vec<(String, Provenance)>, keys: &Vec<&'static str>, source: &ConfigSource)
    ensures
        forall|k: Seq<char>| #[trigger] provenance_of(final(provenance)@, k) == provenance_after(
            old(provenance)@,
            key_texts(keys@),
            source_view(*source),
            k,
        ),
{
    let ghost before = provenance@;
    let mut i: usize = 0;
    while i < keys.len()
        invariant
            0 <= i <= keys@.len(),
            forall|k: Seq<char>| #[trigger] provenance_of(provenance@, k) == provenance_after(
                before,
                key_texts(keys@).take(i as int),
                source_view(*source),
                k,
            ),
        decreases keys@.len() - i,
    {
        let ghost prefix = key_texts(keys@).take(i as int);
        set_provenance(provenance, keys[i], source);
        proof {
            assert(key_texts(keys@).take(i + 1) =~= prefix.push(keys@[i as int]@));
            assert forall|k: Seq<char>| #[trigger] provenance_of(provenance@, k) == provenance_after(
                before,
                key_texts(keys@).take(i + 1),
                source_view(*source),
                k,
            ) by {
                assert(prefix.push(keys@[i as int]@).drop_last() =~= prefix);
            }
        }
        i = i + 1;
    }
    proof {
        assert(key_texts(keys@).take(keys@.len() as int) =~= key_texts(keys@));
    }
}

fn set_ui(
    ui: &mut super::schema::UiConfig,
    keys: &mut Vec<&'static str>,
    color: Option<super::schema::ColorMode>,
    glyphs: Option<super::schema::GlyphMode>,
    theme: Option<String>,
    mouse: Option<bool>,
    preview: Option<super::schema::PreviewMode>,
)
    ensures
        final(ui).color == over(color, old(ui).color),
        final(ui).glyphs == over(glyphs, old(ui).glyphs),
        final(ui).theme == over(theme, old(ui).theme),
        final(ui).mouse == over(mouse, old(ui).mouse),
        final(ui).preview == over(preview, old(ui).preview),
        key_texts(final(keys)@) == push_if(push_if(push_if(push_if(push_if(key_texts(old(keys)@), color is Some, "ui.color"@), glyphs is Some, "ui.glyphs"@), theme is Some, "ui.theme"@), mouse is Some, "ui.mouse"@), preview is Some, "ui.preview"@),
{
    let has = color.is_some();
    if let Some(v) = color {
        ui.color = v;
    }
    note(keys, has, "ui.color");
    let has = glyphs.is_some();
    if let Some(v) = glyphs {
        ui.glyphs = v;
    }
    note(keys, has, "ui.glyphs");
    let has = theme.is_some();
    if let Some(v) = theme {
        ui.theme = v;
    }
    note(keys, has, "ui.theme");
    let has = mouse.is_some();
    if let Some(v) = mouse {
        ui.mouse = v;
    }
    note(keys, has, "ui.mouse");
    let has = preview.is_some();
    if let Some(v) = preview {
        ui.preview = v;
    }
    note(keys, has, "ui.preview");
}

fn set_editor(
    editor: &mut super::schema::EditorConfig,
    keys: &mut Vec<&'static str>,
    mode: Option<EditorMode>,
    external: Option<Vec<String>>,
)
    ensures
        final(editor).mode == over(mode, old(editor).mode),
        final(editor).external == match external {
            Some(v) => Some(v),
            None => old(editor).external,
        },
        key_texts(final(keys)@) == push_if(push_if(key_texts(old(keys)@), mode is Some, "editor.mode"@), external is Some, "editor.external"@),
{
    let has = mode.is_some();
    if let Some(v) = mode {
        editor.mode = v;
    }
    note(keys, has, "editor.mode");
    let has = external.is_some();
    if let Some(v) = external {
        editor.external = Some(v);
    }
    note(keys, has, "editor.external");
}

fn set_database(
    database: &mut super::schema::DatabaseConfig,
    keys: &mut Vec<&'static str>,
    path: Option<std::path::PathBuf>,
    busy_timeout_ms: Option<u64>,
    auto_migrate: Option<bool>,
    backup_before_migrate: Option<bool>,
    backup_keep: Option<usize>,
    journal_mode: Option<super::schema::JournalMode>,
)
    ensures
        final(database).path == over(path, old(database).path),
        final(database).busy_timeout_ms == over(busy_timeout_ms, old(database).busy_timeout_ms),
        final(database).auto_migrate == over(auto_migrate, old(database).auto_migrate),
        final(database).backup_before_migrate == over(backup_before_migrate, old(database).backup_before_migrate),
        final(database).backup_keep == over(backup_keep, old(database).backup_keep),
        final(database).journal_mode == over(journal_mode, old(database).journal_mode),
        key_texts(final(keys)@) == push_if(push_if(push_if(push_if(push_if(push_if(key_texts(old(keys)@), path is Some, "database.path"@), busy_timeout_ms is Some, "database.busy_timeout_ms"@), auto_migrate is Some, "database.auto_migrate"@), backup_before_migrate is Some, "database.backup_before_migrate"@), backup_keep is Some, "database.backup_keep"@), journal_mode is Some, "database.journal_mode"@),
{
    let has = path.is_some();
    if let Some(v) = path {
        database.path = v;
    }
    note(keys, has, "database.path");
    let has = busy_timeout_ms.is_some();
    if let Some(v) = busy_timeout_ms {
        database.busy_timeout_ms = v;
    }
    note(keys, has, "database.busy_timeout_ms");
    let has = auto_migrate.is_some();
    if let Some(v) = auto_migrate {
        database.auto_migrate = v;
    }
    note(keys, has, "database.auto_migrate");
    let has = backup_before_migrate.is_some();
    if let Some(v) = backup_before_migrate {
        database.backup_before_migrate = v;
    }
    note(keys, has, "database.backup_before_migrate");
    let has = backup_keep.is_some();
    if let Some(v) = backup_keep {
        database.backup_keep = v;
    }
    note(keys, has, "database.backup_keep");
    let has = journal_mode.is_some();
    if let Some(v) = journal_mode {
        database.journal_mode = v;
    }
    note(keys, has, "database.journal_mode");
}

fn set_search(
    search: &mut super::schema::SearchConfig,
    keys: &mut Vec<&'static str>,
    field: Option<super::schema::SearchField>,
    matcher: Option<super::schema::SearchMatcher>,
)
    ensures
        final(search).field == over(field, old(search).field),
        final(search).matcher == over(matcher, old(search).matcher),
        key_texts(final(keys)@) == push_if(push_if(key_texts(old(keys)@), field is Some, "search.field"@), matcher is Some, "search.matcher"@),
{
    let has = field.is_some();
    if let Some(v) = field {
        search.field = v;
    }
    note(keys, has, "search.field");
    let has = matcher.is_some();
    if let Some(v) = matcher {
        search.matcher = v;
    }
    note(keys, has, "search.matcher");
}

fn apply_settings(config: &mut Config, provenance: &mut Vec<(String, Provenance)>, overlay: ConfigOverlay, source: &ConfigSource) -> (themes: Vec<(String, Theme)>)
    ensures
        themes == overlay.themes,
        final(config).themes == old(config).themes,
        final(config).schema_version == old(config).schema_version,
        final(config).ui.color == over(overlay.ui_color, old(config).ui.color),
        final(config).ui.glyphs == over(overlay.ui_glyphs, old(config).ui.glyphs),
        final(config).ui.theme == over(overlay.ui_theme, old(config).ui.theme),
        final(config).ui.mouse == over(overlay.ui_mouse, old(config).ui.mouse),
        final(config).ui.preview == over(overlay.ui_preview, old(config).ui.preview),
        final(config).editor.mode == over(overlay.editor_mode, old(config).editor.mode),
        final(config).editor.external == match overlay.editor_external {
            Some(v) => Some(v),
            None => old(config).editor.external,
        },
        final(config).database.path == over(overlay.database_path, old(config).database.path),
        final(config).database.busy_timeout_ms == over(overlay.database_busy_timeout_ms, old(config).database.busy_timeout_ms),
        final(config).database.auto_migrate == over(overlay.database_auto_migrate, old(config).database.auto_migrate),
        final(config).database.backup_before_migrate == over(
            overlay.database_backup_before_migrate,
            old(config).database.backup_before_migrate,
        ),
        final(config).database.backup_keep == over(overlay.database_backup_keep, old(config).database.backup_keep),
        final(config).database.journal_mode == over(overlay.database_journal_mode, old(config).database.journal_mode),
        final(config).search.field == over(overlay.search_field, old(config).search.field),
        final(config).search.matcher == over(overlay.search_matcher, old(config).search.matcher),
        forall|k: Seq<char>| #[trigger] provenance_of(final(provenance)@, k) == provenance_after(
            old(provenance)@,
            setting_keys(overlay),
            source_view(*source),
            k,
        ),
{
    let ghost o = overlay;
    let mut keys: Vec<&'static str> = Vec::new();
    set_ui(&mut config.ui, &mut keys, overlay.ui_color, overlay.ui_glyphs, overlay.ui_theme, overlay.ui_mouse, overlay.ui_preview);
    set_editor(&mut config.editor, &mut keys, overlay.editor_mode, overlay.editor_external);
    set_database(
        &mut config.database,
        &mut keys,
        overlay.database_path,
        overlay.database_busy_timeout_ms,
        overlay.database_auto_migrate,
        overlay.database_backup_before_migrate,
        overlay.database_backup_keep,
        overlay.database_journal_mode,
    );
    set_search(&mut config.search, &mut keys, overlay.search_field, overlay.search_matcher);
    assert(key_texts(Seq::<&str>::empty()) =~= Seq::<Seq<char>>::empty());
    record_keys(provenance, &keys, source);
    proof {
        assert(key_texts(keys@) == setting_keys(o));
    }
    overlay.themes
}

/// The texts of a list of keys.
pub open spec fn key_texts(keys: Seq<&str>) -> Seq<Seq<char>> {
    keys.map_values(|k: &str| k@)
}

fn apply_themes(config: &mut Config, provenance: &mut Vec<(String, Provenance)>, themes: Vec<(String, Theme)>, source: &ConfigSource)
    ensures
        final(config).schema_version == old(config).schema_version,
        final(config).ui == old(config).ui,
        final(config).editor == old(config).editor,
        final(config).database == old(config).database,
        final(config).search == old(config).search,
        forall|k: Seq<char>| #[trigger] theme_of(final(config).themes@, k) == theme_after(old(config).themes@, themes@, k),
        forall|k: Seq<char>| #[trigger] provenance_of(final(provenance)@, k) == provenance_after(
            old(provenance)@,
            theme_keys(themes@, themes@.len() as int),
            source_view(*source),
            k,
        ),
{
    let ghost before = provenance@;
    let ghost mut keys: Seq<Seq<char>> = Seq::empty();
    let ghost prefix = keys;
    let mut themes = themes;
    let total = themes.len();
    let ghost all = themes@;
    let ghost themes_before = config.themes@;
    let mut n: usize = 0;
    while themes.len() > 0
        invariant
            0 <= n <= all.len(),
            themes@ == all.skip(n as int),
            themes@.len() == all.len() - n,
            all.len() == total,
            keys == prefix + theme_keys(all, n as int),
            prefix == Seq::<Seq<char>>::empty(),
            config.ui == old(config).ui,
            config.editor == old(config).editor,
            config.database == old(config).database,
            config.search == old(config).search,
            config.schema_version == old(config).schema_version,
            forall|k: Seq<char>| #[trigger] provenance_of(provenance@, k) == provenance_after(before, keys, source_view(*source), k),
            forall|k: Seq<char>| #[trigger] theme_of(config.themes@, k) == theme_after(themes_before, all.take(n as int), k),
        decreases themes@.len(),
    {
        let (name, theme) = themes.remove(0);
        let ghost name_view = name@;
        proof {
            assert(all[n as int] == (name, theme));
        }
        record_theme(provenance, &name, source, Ghost(before), Ghost(keys));
        insert_theme(&mut config.themes, name, theme);
        proof {
            keys = keys + token_keys(name_view, 10);
            assert(prefix + theme_keys(all, n + 1) =~= prefix + theme_keys(all, n as int) + token_keys(name_view, 10));
            assert forall|k: Seq<char>| #[trigger] theme_of(config.themes@, k) == theme_after(themes_before, all.take(n + 1), k) by {
                assert(all.take(n + 1).drop_last() =~= all.take(n as int));
            }
            assert(all.skip(n + 1) =~= all.skip(n as int).drop_first());
        }
        n = n + 1;
    }
    proof {
        assert(all.take(n as int) =~= all);
        assert(keys =~= theme_keys(all, all.len() as int));
    }
}


/// Applies one layer: each setting it holds replaces the current one, and each theme it
/// defines is inserted; every key it sets records the layer as its source (see
/// `set_provenance`).
pub fn apply_layer(config: &mut Config, provenance: &mut Vec<(String, Provenance)>, layer: ConfigLayer)
    ensures
        applied(*old(config), layer.overlay, *final(config)),
        forall|k: Seq<char>| #[trigger] provenance_of(final(provenance)@, k) == provenance_after(
            old(provenance)@,
            layer_keys(layer.overlay),
            source_view(layer.source),
            k,
        ),
{
    let ghost o = layer.overlay;
    let ghost p0 = provenance@;
    let source = layer.source;
    let themes = apply_settings(config, provenance, layer.overlay, &source);
    let ghost p1 = provenance@;
    apply_themes(config, provenance, themes, &source);
    proof {
        let a = setting_keys(o);
        let b = theme_keys(o.themes@, o.themes@.len() as int);
        lemma_provenance_after_concat(p0, a, b, source_view(source));
        assert forall|k: Seq<char>| #[trigger] provenance_of(provenance@, k) == provenance_after(p0, layer_keys(o), source_view(source), k) by {
            lemma_after_chain(p0, p1, a, b, source_view(source), k);
            assert(layer_keys(o) =~= a + b);
        }
    }
}

proof fn lemma_after_chain(
    p0: Seq<(String, Provenance)>,
    p1: Seq<(String, Provenance)>,
    a: Seq<Seq<char>>,
    b: Seq<Seq<char>>,
    src: SourceView,
    k: Seq<char>,
)
    requires
        forall|j: Seq<char>| #[trigger] provenance_of(p1, j) == provenance_after(p0, a, src, j),
    ensures
        provenance_after(p1, b, src, k) == provenance_after_from(p0, a, b, src, k),
    decreases b.len(),
{
    if b.len() > 0 {
        lemma_after_chain(p0, p1, a, b.drop_last(), src, k);
    } else {
        assert(provenance_of(p1, k) == provenance_after(p0, a, src, k));
    }
}

/// Setting keys in two runs is setting them in one.
proof fn lemma_provenance_after_concat(before: Seq<(String, Provenance)>, a: Seq<Seq<char>>, b: Seq<Seq<char>>, src: SourceView)
    ensures
        forall|k: Seq<char>| #[trigger] provenance_after(before, a + b, src, k) == provenance_after_from(before, a, b, src, k),
    decreases b.len(),
{
    assert forall|k: Seq<char>| #[trigger] provenance_after(before, a + b, src, k) == provenance_after_from(before, a, b, src, k) by {
        lemma_concat_one(before, a, b, src, k);
    }
}

/// The provenance of `k` after `a`, then `b`, were set.
pub open spec fn provenance_after_from(
    before: Seq<(String, Provenance)>,
    a: Seq<Seq<char>>,
    b: Seq<Seq<char>>,
    source: SourceView,
    k: Seq<char>,
) -> Option<ProvenanceView>
    decreases b.len(),
{
    if b.len() == 0 {
        provenance_after(before, a, source, k)
    } else {
        let previous = provenance_after_from(before, a, b.drop_last(), source, k);
        if b.last() == k {
            Some(overridden_by(previous, source))
        } else {
            previous
        }
    }
}

proof fn lemma_concat_one(before: Seq<(String, Provenance)>, a: Seq<Seq<char>>, b: Seq<Seq<char>>, src: SourceView, k: Seq<char>)
    ensures
        provenance_after(before, a + b, src, k) == provenance_after_from(before, a, b, src, k),
    decreases b.len(),
{
    if b.len() == 0 {
        assert(a + b =~= a);
    } else {
        assert((a + b).drop_last() =~= a + b.drop_last());
        lemma_concat_one(before, a, b.drop_last(), src, k);
    }
}

/// The theme named `name` is defined.
pub open spec fn has_theme(themes: Seq<(String, Theme)>, name: Seq<char>) -> bool {
    exists|i: int| 0 <= i < themes.len() && (#[trigger] themes[i]).0@ == name
}

/// Every problem of an effective configuration, in order.
pub open spec fn effective_diagnostics(c: Config) -> Seq<Expected> {
    let mode_part: Seq<Expected> = match (c.editor.mode, c.editor.external) {
        (EditorMode::External, None) => seq![("E_CONFIG_EDITOR"@, "external editor mode requires editor.external"@, Some("editor.external"@), None, None)],
        (EditorMode::Builtin, Some(_)) => seq![("E_CONFIG_EDITOR"@, "builtin editor mode conflicts with editor.external"@, Some("editor.external"@), None, None)],
        _ => seq![],
    };
    let argv_part: Seq<Expected> = match (c.editor.mode, c.editor.external) {
        (EditorMode::External, Some(argv)) => if argv@.len() == 0 || file_arguments(argv@) != 1 {
            seq![(
                "E_CONFIG_EDITOR"@,
                "external editor argv must be non-empty and contain `{file}` as a standalone argv element exactly once"@,
                Some("editor.external"@),
                None,
                None,
            )]
        } else {
            seq![]
        },
        _ => seq![],
    };
    let builtin = c.ui.theme@ == "dark"@ || c.ui.theme@ == "light"@ || c.ui.theme@ == "monochrome"@;
    let theme_part: Seq<Expected> = if !builtin && !has_theme(c.themes@, c.ui.theme@) {
        seq![("E_CONFIG_THEME"@, "selected custom theme `"@ + c.ui.theme@ + "` is not defined"@, Some("ui.theme"@), None, None)]
    } else {
        seq![]
    };
    mode_part + argv_part + theme_part
}

fn same_text(a: &str, b: &str) -> (r: bool)
    ensures
        r == (a@ == b@),
{
    match crate::order::text_order(a, b) {
        crate::order::Precedence::Same => true,
        _ => false,
    }
}

fn count_files(argv: &Vec<String>) -> (n: usize)
    ensures
        n == file_arguments(argv@),
{
    let mut n: usize = 0;
    let mut i: usize = 0;
    while i < argv.len()
        invariant
            0 <= i <= argv@.len(),
            n == file_arguments(argv@.take(i as int)),
            n <= i,
        decreases argv@.len() - i,
    {
        proof {
            assert(argv@.take(i + 1).drop_last() =~= argv@.take(i as int));
        }
        if same_text(argv[i].as_str(), "{file}") {
            n = n + 1;
        }
        i = i + 1;
    }
    proof {
        assert(argv@.take(argv@.len() as int) =~= argv@);
    }
    n
}

/// Checks the effective configuration: the editor mode agrees with the external argv, which
/// holds `{file}` once, and the selected theme exists.
pub fn validate_effective(config: &Config) -> (r: Result<(), Vec<ConfigDiagnostic>>)
    ensures
        effective_diagnostics(*config).len() == 0 ==> r is Ok,
        effective_diagnostics(*config).len() > 0 ==> (r matches Err(ds) && are_expected(ds@, effective_diagnostics(*config))),
{
    let mut diagnostics: Vec<ConfigDiagnostic> = Vec::new();
    match (config.editor.mode, &config.editor.external) {
        (EditorMode::External, None) => {
            diagnostics.push(
                ConfigDiagnostic::error("E_CONFIG_EDITOR", "external editor mode requires editor.external").with_key("editor.external"),
            );
        },
        (EditorMode::Builtin, Some(_)) => {
            diagnostics.push(
                ConfigDiagnostic::error("E_CONFIG_EDITOR", "builtin editor mode conflicts with editor.external").with_key("editor.external"),
            );
        },
        _ => {},
    }
    let ghost first = diagnostics@;
    match (config.editor.mode, &config.editor.external) {
        (EditorMode::External, Some(argv)) => {
            let count = count_files(argv);
            if argv.len() == 0 || count != 1 {
                diagnostics.push(
                    ConfigDiagnostic::error(
                        "E_CONFIG_EDITOR",
                        "external editor argv must be non-empty and contain `{file}` as a standalone argv element exactly once",
                    ).with_key("editor.external"),
                );
            }
        },
        _ => {},
    }
    let ghost second = diagnostics@;
    let name = config.ui.theme.as_str();
    let builtin = same_text(name, "dark") || same_text(name, "light") || same_text(name, "monochrome");
    let mut defined = false;
    if !builtin {
        let mut i: usize = 0;
        while i < config.themes.len()
            invariant
                0 <= i <= config.themes@.len(),
                name@ == config.ui.theme@,
                !defined ==> forall|j: int| 0 <= j < i ==> (#[trigger] config.themes@[j]).0@ != config.ui.theme@,
                defined ==> has_theme(config.themes@, config.ui.theme@),
            decreases config.themes@.len() - i,
        {
            if same_text(config.themes[i].0.as_str(), name) {
                defined = true;
            }
            i = i + 1;
        }
        if !defined {
            let mut message = String::new();
            message.push_str("selected custom theme `");
            message.push_str(name);
            message.push_str("` is not defined");
            diagnostics.push(ConfigDiagnostic::error("E_CONFIG_THEME", message.as_str()).with_key("ui.theme"));
        }
    }
    proof {
        let e = effective_diagnostics(*config);
        assert forall|i: int| 0 <= i < diagnostics@.len() implies is_expected(#[trigger] diagnostics@[i], e[i]) by {
            if i < first.len() {
                assert(diagnostics@[i] == first[i]);
            } else if i < second.len() {
                assert(diagnostics@[i] == second[i]);
            }
        }
    }
    if diagnostics.len() == 0 {
        Ok(())
    } else {
        Err(diagnostics)
    }
}

} // verus!
