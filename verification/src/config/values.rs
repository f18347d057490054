//! The effective configuration as text: every key with its value written as in a TOML file,
//! and where it came from.

use vstd::prelude::*;

use super::diagnostic::ConfigDiagnostic;
use super::layers::{apply_layer, provenance_of, source_view, validate_effective, ConfigLayer, ConfigSource, Provenance};
use super::schema::{
    color_name, editor_name, field_name, glyph_name, journal_name, matcher_name, preview_name, token_color, token_names,
    Config, ConfigPaths,
};
use crate::text::{decimal, push_decimal};

verus! {

/// Rust's debug spelling of a text: quoted, with escapes.
pub uninterp spec fn debug_string(s: Seq<char>) -> Seq<char>;

/// Writes a text in Rust's debug spelling (`format!("{:?}", text)`).
#[verifier::external_body]
fn debug_text(text: &str) -> (r: String)
    ensures
        r@ == debug_string(text@),
{
    format!("{:?}", text)
}

/// Writes a path in Rust's debug spelling (`format!("{:?}", path)`); nothing is claimed of
/// the text, which depends on the platform's path encoding.
#[verifier::external_body]
fn debug_path(path: &std::path::PathBuf) -> String {
    format!("{:?}", path)
}

/// A quoted enum spelling.
pub open spec fn quoted(s: Seq<char>) -> Seq<char> {
    "\""@ + s + "\""@
}

/// The spelling of a boolean.
pub open spec fn bool_text(b: bool) -> Seq<char> {
    if b { "true"@ } else { "false"@ }
}

/// The debug spelling of a list of texts.
pub open spec fn debug_list(items: Seq<String>) -> Seq<char>
    decreases items.len(),
{
    if items.len() == 0 {
        "[]"@
    } else {
        debug_items(items, items.len() as int)
    }
}

/// `[` and the first `n` items, comma separated, then `]`.
pub open spec fn debug_items(items: Seq<String>, n: int) -> Seq<char> {
    "["@ + debug_joined(items, n) + "]"@
}

/// The first `n` items in debug spelling, comma separated.
pub open spec fn debug_joined(items: Seq<String>, n: int) -> Seq<char>
    decreases n,
{
    if n <= 0 {
        Seq::empty()
    } else if n == 1 {
        debug_string(items[0]@)
    } else {
        debug_joined(items, n - 1) + ", "@ + debug_string(items[n - 1]@)
    }
}

/// The keys and values of a configuration, in the order they are listed; the value of
/// `database.path` depends on the platform and is left out (`None`).
pub open spec fn config_entries(c: Config) -> Seq<(Seq<char>, Option<Seq<char>>)> {
    seq![
        ("schema_version"@, Some(decimal(c.schema_version as nat))),
        ("ui.color"@, Some(quoted(color_name(c.ui.color)))),
        ("ui.glyphs"@, Some(quoted(glyph_name(c.ui.glyphs)))),
        ("ui.theme"@, Some(debug_string(c.ui.theme@))),
        ("ui.mouse"@, Some(bool_text(c.ui.mouse))),
        ("ui.preview"@, Some(quoted(preview_name(c.ui.preview)))),
        ("editor.mode"@, Some(quoted(editor_name(c.editor.mode)))),
        ("editor.external"@, Some(match c.editor.external {
            Some(argv) => debug_list(argv@),
            None => "null"@,
        })),
        ("database.path"@, None),
        ("database.busy_timeout_ms"@, Some(decimal(c.database.busy_timeout_ms as nat))),
        ("database.auto_migrate"@, Some(bool_text(c.database.auto_migrate))),
        ("database.backup_before_migrate"@, Some(bool_text(c.database.backup_before_migrate))),
        ("database.backup_keep"@, Some(decimal(c.database.backup_keep as nat))),
        ("database.journal_mode"@, Some(quoted(journal_name(c.database.journal_mode)))),
        ("search.field"@, Some(quoted(field_name(c.search.field)))),
        ("search.matcher"@, Some(quoted(matcher_name(c.search.matcher)))),
    ] + theme_entries(c.themes@, c.themes@.len() as int)
}

/// The entries of the tokens of the first `n` themes.
pub open spec fn theme_entries(themes: Seq<(String, super::schema::Theme)>, n: int) -> Seq<(Seq<char>, Option<Seq<char>>)>
    decreases n,
{
    if n <= 0 {
        Seq::empty()
    } else {
        theme_entries(themes, n - 1) + Seq::new(
            10,
            |k: int| (
                "themes."@ + themes[n - 1].0@ + "."@ + token_names()[k],
                Some(debug_string(token_color(themes[n - 1].1, k))),
            ),
        )
    }
}

proof fn lemma_theme_entries_len(themes: Seq<(String, super::schema::Theme)>, n: int)
    requires
        0 <= n,
    ensures
        theme_entries(themes, n).len() == 10 * n,
    decreases n,
{
    if n > 0 {
        lemma_theme_entries_len(themes, n - 1);
    }
}

/// `r` lists the entries `e`: the same keys, and the same values where they are given.
pub open spec fn lists_entries(r: Seq<(String, String)>, e: Seq<(Seq<char>, Option<Seq<char>>)>) -> bool {
    &&& r.len() == e.len()
    &&& forall|i: int| 0 <= i < r.len() ==> (#[trigger] r[i]).0@ == e[i].0 && (e[i].1 matches Some(v) ==> r[i].1@ == v)
}

fn text_of_bool(b: bool) -> (s: String)
    ensures
        s@ == bool_text(b),
{
    if b { "true".to_owned() } else { "false".to_owned() }
}

fn quote_name(name: &str) -> (s: String)
    ensures
        s@ == quoted(name@),
{
    let mut out = String::new();
    out.push_str("\"");
    out.push_str(name);
    out.push_str("\"");
    out
}

fn number_text(n: u128) -> (s: String)
    ensures
        s@ == decimal(n as nat),
{
    let mut out = String::new();
    push_decimal(&mut out, n);
    out
}

fn list_text(items: &Vec<String>) -> (s: String)
    ensures
        s@ == debug_list(items@),
{
    if items.len() == 0 {
        return "[]".to_owned();
    }
    let mut out = String::new();
    out.push_str("[");
    let mut i: usize = 0;
    while i < items.len()
        invariant
            0 <= i <= items@.len(),
            items@.len() > 0,
            out@ == "["@ + debug_joined(items@, i as int),
        decreases items@.len() - i,
    {
        if i > 0 {
            out.push_str(", ");
        }
        let item = debug_text(items[i].as_str());
        out.push_str(item.as_str());
        proof {
            if i > 0 {
                assert(out@ =~= "["@ + debug_joined(items@, i + 1));
            } else {
                assert(out@ =~= "["@ + debug_joined(items@, 1));
            }
        }
        i = i + 1;
    }
    out.push_str("]");
    out
}

/// The keys and values of a configuration as text (see `config_entries`).
pub fn config_values(config: &Config) -> (r: Vec<(String, String)>)
    ensures
        lists_entries(r@, config_entries(*config)),
{
    let mut values: Vec<(String, String)> = Vec::new();
    values.push(("schema_version".to_owned(), number_text(config.schema_version as u128)));
    values.push(("ui.color".to_owned(), quote_name(config.ui.color.as_str())));
    values.push(("ui.glyphs".to_owned(), quote_name(config.ui.glyphs.as_str())));
    values.push(("ui.theme".to_owned(), debug_text(config.ui.theme.as_str())));
    values.push(("ui.mouse".to_owned(), text_of_bool(config.ui.mouse)));
    values.push(("ui.preview".to_owned(), quote_name(config.ui.preview.as_str())));
    values.push(("editor.mode".to_owned(), quote_name(config.editor.mode.as_str())));
    let external = match &config.editor.external {
        Some(argv) => list_text(argv),
        None => "null".to_owned(),
    };
    values.push(("editor.external".to_owned(), external));
    values.push(("database.path".to_owned(), debug_path(&config.database.path)));
    values.push(("database.busy_timeout_ms".to_owned(), number_text(config.database.busy_timeout_ms as u128)));
    values.push(("database.auto_migrate".to_owned(), text_of_bool(config.database.auto_migrate)));
    values.push(("database.backup_before_migrate".to_owned(), text_of_bool(config.database.backup_before_migrate)));
    values.push(("database.backup_keep".to_owned(), number_text(config.database.backup_keep as u128)));
    values.push(("database.journal_mode".to_owned(), quote_name(config.database.journal_mode.as_str())));
    values.push(("search.field".to_owned(), quote_name(config.search.field.as_str())));
    values.push(("search.matcher".to_owned(), quote_name(config.search.matcher.as_str())));
    let ghost head = values@;
    proof {
        assert(lists_entries(head, config_entries(*config).take(16)));
    }
    let mut n: usize = 0;
    while n < config.themes.len()
        invariant
            0 <= n <= config.themes@.len(),
            values@.len() == 16 + 10 * n,
            lists_entries(values@, config_entries(*config).take(16) + theme_entries(config.themes@, n as int)),
        decreases config.themes@.len() - n,
    {
        let name = &config.themes[n].0;
        let theme = &config.themes[n].1;
        let mut k: usize = 0;
        let ghost start = values@;
        while k < 10
            invariant
                0 <= k <= 10,
                n < config.themes@.len(),
                *name == config.themes@[n as int].0,
                *theme == config.themes@[n as int].1,
                values@.len() == start.len() + k,
                forall|i: int| 0 <= i < start.len() ==> #[trigger] values@[i] == start[i],
                forall|j: int| 0 <= j < k ==> (#[trigger] values@[start.len() + j]).0@ == "themes."@ + name@ + "."@ + token_names()[j]
                    && values@[start.len() + j].1@ == debug_string(token_color(*theme, j)),
            decreases 10 - k,
        {
            let (token, color) = theme.token(k);
            let mut key = String::new();
            key.push_str("themes.");
            key.push_str(name.as_str());
            key.push_str(".");
            key.push_str(token);
            values.push((key, debug_text(color)));
            k = k + 1;
        }
        proof {
            let e0 = config_entries(*config).take(16) + theme_entries(config.themes@, n as int);
            let e = config_entries(*config).take(16) + theme_entries(config.themes@, n + 1);
            lemma_theme_entries_len(config.themes@, n as int);
            assert(e0.len() == start.len());
            assert forall|i: int| 0 <= i < values@.len() implies (#[trigger] values@[i]).0@ == e[i].0 && (e[i].1 matches Some(v) ==> values@[i].1@ == v) by {
                if i < start.len() {
                    assert(values@[i] == start[i]);
                    assert(e[i] == e0[i]);
                } else {
                    let j = i - start.len();
                    assert(values@[start.len() + j] == values@[i]);
                    assert(e[i] == theme_entries(config.themes@, n + 1)[i - 16]);
                }
            }
        }
        n = n + 1;
    }
    proof {
        assert(config_entries(*config) =~= config_entries(*config).take(16) + theme_entries(config.themes@, config.themes@.len() as int));
    }
    values
}

} // verus!
