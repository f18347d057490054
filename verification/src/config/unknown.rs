//! Keys of a configuration document that the schema does not know, each reported with
//! its dotted name, its line and the nearest known key.

use vstd::prelude::*;
use vstd::string::StringSliceAdditionalSpecFns;

use super::diagnostic::ConfigDiagnostic;
use super::schema::{is_expected, are_expected, token_names, Expected};
use super::text::{nearest, suggestion, texts};
use crate::text::{decimal, push_decimal};

verus! {

/// A value of a configuration document, as far as the key check reads it.
#[derive(Debug)]
pub enum TomlValue {
    /// A table written with a header.
    Table(Vec<TomlEntry>),
    /// A table written inline.
    InlineTable(Vec<TomlEntry>),
    /// Any other value, with its number when it is an integer.
    Other(Option<i64>),
}

/// A key of a table and its value.
#[derive(Debug)]
pub struct TomlEntry {
    /// The key.
    pub key: String,
    /// The byte offset where the entry starts in the document's text, where known.
    pub start: Option<usize>,
    /// The value.
    pub value: TomlValue,
}

/// The keys of the top level.
pub open spec fn top_keys() -> Seq<Seq<char>> {
    seq!["schema_version"@, "ui"@, "editor"@, "database"@, "search"@, "themes"@]
}

/// The keys of a section; empty for any other name.
pub open spec fn section_keys(section: Seq<char>) -> Seq<Seq<char>> {
    if section == "ui"@ {
        seq!["color"@, "glyphs"@, "theme"@, "mouse"@, "preview"@]
    } else if section == "editor"@ {
        seq!["mode"@, "external"@]
    } else if section == "database"@ {
        seq!["path"@, "busy_timeout_ms"@, "auto_migrate"@, "backup_before_migrate"@, "backup_keep"@, "journal_mode"@]
    } else if section == "search"@ {
        seq!["field"@, "matcher"@]
    } else {
        seq![]
    }
}

/// How many bytes are line feeds.
pub open spec fn newlines(bs: Seq<u8>) -> nat
    decreases bs.len(),
{
    if bs.len() == 0 {
        0
    } else {
        newlines(bs.drop_last()) + if bs.last() == 10u8 { 1nat } else { 0nat }
    }
}

/// The line, counted from one, of a byte offset of a text; an offset past the end counts
/// the whole text.
pub open spec fn line_of(text: Seq<u8>, start: int) -> nat {
    newlines(text.take(if start < text.len() { start } else { text.len() as int })) + 1
}

/// Where an entry is: the source and its line, or the source alone.
pub open spec fn location(source: Seq<char>, text: Seq<u8>, start: Option<usize>) -> Seq<char> {
    match start {
        Some(s) => source + ":"@ + decimal(line_of(text, s as int)),
        None => source,
    }
}

/// A key under a prefix: `prefix.key`, or the key alone at the top.
pub open spec fn dotted(prefix: Seq<char>, key: Seq<char>) -> Seq<char> {
    if prefix.len() == 0 {
        key
    } else {
        prefix + "."@ + key
    }
}

/// The error of an unknown key.
pub open spec fn unknown_key(
    prefix: Seq<char>,
    e: TomlEntry,
    expected: Seq<Seq<char>>,
    text: Seq<u8>,
    source: Seq<char>,
) -> Expected {
    (
        "E_CONFIG_UNKNOWN_KEY"@,
        "unknown configuration key `"@ + dotted(prefix, e.key@) + "`"@,
        Some(dotted(prefix, e.key@)),
        Some(location(source, text, e.start)),
        match suggestion(e.key@, expected) {
            Some(s) => Some("did you mean `"@ + s + "`?"@),
            None => None,
        },
    )
}

/// The errors of one table's keys against the keys it may have, in order.
pub open spec fn level_findings(
    entries: Seq<TomlEntry>,
    prefix: Seq<char>,
    expected: Seq<Seq<char>>,
    text: Seq<u8>,
    source: Seq<char>,
) -> Seq<Expected>
    decreases entries.len(),
{
    if entries.len() == 0 {
        seq![]
    } else {
        level_findings(entries.drop_last(), prefix, expected, text, source) + if expected.contains(
            entries.last().key@,
        ) {
            seq![]
        } else {
            seq![unknown_key(prefix, entries.last(), expected, text, source)]
        }
    }
}

/// The errors of the themes: each theme table is checked against the theme's keys; in an
/// inline themes table only inline themes are.
pub open spec fn theme_findings(themes: Seq<TomlEntry>, inline_only: bool, text: Seq<u8>, source: Seq<char>) -> Seq<
    Expected,
>
    decreases themes.len(),
{
    if themes.len() == 0 {
        seq![]
    } else {
        theme_findings(themes.drop_last(), inline_only, text, source) + theme_block(themes.last(), inline_only, text, source)
    }
}

/// The errors of one theme.
pub open spec fn theme_block(t: TomlEntry, inline_only: bool, text: Seq<u8>, source: Seq<char>) -> Seq<Expected> {
    match t.value {
        TomlValue::Table(c) => if inline_only {
            seq![]
        } else {
            level_findings(c@, "themes."@ + t.key@, token_names(), text, source)
        },
        TomlValue::InlineTable(c) => level_findings(c@, "themes."@ + t.key@, token_names(), text, source),
        TomlValue::Other(_) => seq![],
    }
}

/// The errors of one top-level entry: the entry itself where its key is unknown, else the
/// keys of the section or of the themes it holds; a known key that is no section has none.
pub open spec fn entry_findings(e: TomlEntry, text: Seq<u8>, source: Seq<char>) -> Seq<Expected> {
    if !top_keys().contains(e.key@) {
        seq![unknown_key(""@, e, top_keys(), text, source)]
    } else if e.key@ == "themes"@ {
        match e.value {
            TomlValue::Table(c) => theme_findings(c@, false, text, source),
            TomlValue::InlineTable(c) => theme_findings(c@, true, text, source),
            TomlValue::Other(_) => seq![],
        }
    } else if section_keys(e.key@).len() > 0 {
        match e.value {
            TomlValue::Table(c) => level_findings(c@, e.key@, section_keys(e.key@), text, source),
            TomlValue::InlineTable(c) => level_findings(c@, e.key@, section_keys(e.key@), text, source),
            TomlValue::Other(_) => seq![],
        }
    } else {
        seq![]
    }
}

/// The errors of a document's unknown keys, in document order.
pub open spec fn document_findings(entries: Seq<TomlEntry>, text: Seq<u8>, source: Seq<char>) -> Seq<Expected>
    decreases entries.len(),
{
    if entries.len() == 0 {
        seq![]
    } else {
        document_findings(entries.drop_last(), text, source) + entry_findings(entries.last(), text, source)
    }
}

/// The line of a byte offset (see `line_of`).
fn line_at(text: &str, start: usize) -> (n: u128)
    ensures
        n == line_of(text.spec_bytes(), start as int),
{
    let bytes = text.as_bytes();
    let end = if start < bytes.len() { start } else { bytes.len() };
    let mut count: usize = 0;
    let mut i: usize = 0;
    while i < end
        invariant
            bytes@ == text.spec_bytes(),
            end <= bytes@.len(),
            0 <= i <= end,
            count == newlines(bytes@.take(i as int)),
            count <= i,
        decreases end - i,
    {
        proof {
            assert(bytes@.take(i + 1).drop_last() =~= bytes@.take(i as int));
        }
        if bytes[i] == 10u8 {
            count = count + 1;
        }
        i = i + 1;
    }
    count as u128 + 1
}

fn location_text(source: &str, text: &str, start: Option<usize>) -> (s: String)
    ensures
        s@ == location(source@, text.spec_bytes(), start),
{
    let mut s = source.to_owned();
    if let Some(offset) = start {
        s.push_str(":");
        let line = line_at(text, offset);
        push_decimal(&mut s, line);
    }
    s
}

fn is_known(key: &str, expected: &[&str]) -> (b: bool)
    ensures
        b == texts(expected@).contains(key@),
{
    let mut i: usize = 0;
    while i < expected.len()
        invariant
            0 <= i <= expected@.len(),
            forall|j: int| 0 <= j < i ==> (#[trigger] expected@[j])@ != key@,
        decreases expected@.len() - i,
    {
        let same = match crate::order::text_order(expected[i], key) {
            crate::order::Precedence::Same => true,
            _ => false,
        };
        if same {
            proof {
                assert(texts(expected@)[i as int] == key@);
            }
            return true;
        }
        i = i + 1;
    }
    proof {
        if texts(expected@).contains(key@) {
            let j = choose|j: int| 0 <= j < texts(expected@).len() && texts(expected@)[j] == key@;
            assert(expected@[j]@ == key@);
        }
    }
    false
}

/// Appends the error of an unknown key.
fn report(
    prefix: &str,
    entry: &TomlEntry,
    expected: &[&str],
    text: &str,
    source: &str,
    diagnostics: &mut Vec<ConfigDiagnostic>,
)
    requires
        forall|j: int| 0 <= j < expected@.len() ==> entry.key@.len() + (#[trigger] expected@[j])@.len() < usize::MAX,
    ensures
        final(diagnostics)@ == old(diagnostics)@.push(final(diagnostics)@.last()),
        is_expected(final(diagnostics)@.last(), unknown_key(prefix@, *entry, texts(expected@), text.spec_bytes(), source@)),
{
    let mut name = String::new();
    if crate::application::search::chars_of(prefix).len() > 0 {
        name.push_str(prefix);
        name.push_str(".");
    }
    name.push_str(entry.key.as_str());
    proof {
        if prefix@.len() > 0 {
            assert(name@ =~= prefix@ + "."@ + entry.key@);
        } else {
            assert(name@ =~= entry.key@);
        }
    }
    let mut message = "unknown configuration key `".to_owned();
    message.push_str(name.as_str());
    message.push_str("`");
    let place = location_text(source, text, entry.start);
    let mut d = ConfigDiagnostic::error("E_CONFIG_UNKNOWN_KEY", message.as_str()).with_key(name.as_str()).with_source(
        place.as_str(),
    );
    if let Some(s) = nearest(entry.key.as_str(), expected) {
        let mut hint = "did you mean `".to_owned();
        hint.push_str(s);
        hint.push_str("`?");
        d = d.with_suggestion(hint.as_str());
    }
    diagnostics.push(d);
}

/// Appends the errors of one table's keys (see `level_findings`).
fn check_level(
    entries: &Vec<TomlEntry>,
    prefix: &str,
    expected: &[&str],
    text: &str,
    source: &str,
    diagnostics: &mut Vec<ConfigDiagnostic>,
)
    requires
        forall|i: int, j: int|
            0 <= i < entries@.len() && 0 <= j < expected@.len() ==> (#[trigger] entries@[i]).key@.len() + (
            #[trigger] expected@[j])@.len() < usize::MAX,
    ensures
        final(diagnostics)@.len() >= old(diagnostics)@.len(),
        final(diagnostics)@.take(old(diagnostics)@.len() as int) == old(diagnostics)@,
        are_expected(
            final(diagnostics)@.skip(old(diagnostics)@.len() as int),
            level_findings(entries@, prefix@, texts(expected@), text.spec_bytes(), source@),
        ),
{
    let ghost before = diagnostics@;
    let ghost es = texts(expected@);
    let mut i: usize = 0;
    proof {
        assert(entries@.take(0) =~= Seq::<TomlEntry>::empty());
        assert(diagnostics@.take(before.len() as int) =~= before);
        assert(diagnostics@.skip(before.len() as int) =~= Seq::<ConfigDiagnostic>::empty());
    }
    while i < entries.len()
        invariant
            0 <= i <= entries@.len(),
            es == texts(expected@),
            forall|i: int, j: int|
                0 <= i < entries@.len() && 0 <= j < expected@.len() ==> (#[trigger] entries@[i]).key@.len() + (
                #[trigger] expected@[j])@.len() < usize::MAX,
            diagnostics@.len() >= before.len(),
            diagnostics@.take(before.len() as int) == before,
            are_expected(
                diagnostics@.skip(before.len() as int),
                level_findings(entries@.take(i as int), prefix@, es, text.spec_bytes(), source@),
            ),
        decreases entries@.len() - i,
    {
        let entry = &entries[i];
        let ghost found = diagnostics@.skip(before.len() as int);
        proof {
            assert(entries@.take(i + 1).drop_last() =~= entries@.take(i as int));
            assert(entries@.take(i + 1).last() == *entry);
        }
        if !is_known(entry.key.as_str(), expected) {
            proof {
                assert forall|j: int| 0 <= j < expected@.len() implies entry.key@.len() + (#[trigger] expected@[j])@.len()
                    < usize::MAX by {
                    assert(entries@[i as int] == *entry);
                }
            }
            report(prefix, entry, expected, text, source, diagnostics);
            proof {
                assert(diagnostics@.take(before.len() as int) =~= before) by {
                    assert forall|k: int| 0 <= k < before.len() implies diagnostics@[k] == before[k] by {
                        assert(diagnostics@.drop_last()[k] == diagnostics@[k]);
                    }
                }
                assert(diagnostics@.skip(before.len() as int) =~= found.push(diagnostics@.last()));
            }
        }
        i = i + 1;
    }
    proof {
        assert(entries@.take(entries@.len() as int) =~= entries@);
    }
}

/// A key short enough to be compared with the known keys.
pub open spec fn short_key(e: TomlEntry) -> bool {
    e.key@.len() + 32 < usize::MAX
}

/// Every key of a table is short.
pub open spec fn short_keys(es: Seq<TomlEntry>) -> bool {
    forall|i: int| 0 <= i < es.len() ==> short_key(#[trigger] es[i])
}

/// The tables that a value holds: its entries, or none.
pub open spec fn children(v: TomlValue) -> Seq<TomlEntry> {
    match v {
        TomlValue::Table(c) => c@,
        TomlValue::InlineTable(c) => c@,
        TomlValue::Other(_) => seq![],
    }
}

/// The keys of a document, down to the keys of a theme, are short.
pub open spec fn sized(document: Seq<TomlEntry>) -> bool {
    &&& short_keys(document)
    &&& forall|i: int|
        0 <= i < document.len() ==> short_keys(children((#[trigger] document[i]).value)) && forall|j: int|
            0 <= j < children(document[i].value).len() ==> short_keys(
                children((#[trigger] children(document[i].value)[j]).value),
            )
}

proof fn lemma_extend(
    before: Seq<ConfigDiagnostic>,
    mid: Seq<ConfigDiagnostic>,
    after: Seq<ConfigDiagnostic>,
    x: Seq<Expected>,
    y: Seq<Expected>,
)
    requires
        mid.len() >= before.len(),
        mid.take(before.len() as int) == before,
        are_expected(mid.skip(before.len() as int), x),
        after.len() >= mid.len(),
        after.take(mid.len() as int) == mid,
        are_expected(after.skip(mid.len() as int), y),
    ensures
        after.take(before.len() as int) == before,
        are_expected(after.skip(before.len() as int), x + y),
{
    assert(after.take(before.len() as int) =~= before) by {
        assert forall|k: int| 0 <= k < before.len() implies after[k] == before[k] by {
            assert(after.take(mid.len() as int)[k] == mid[k]);
            assert(mid.take(before.len() as int)[k] == before[k]);
        }
    }
    let z = after.skip(before.len() as int);
    assert forall|k: int| 0 <= k < z.len() implies is_expected(#[trigger] z[k], (x + y)[k]) by {
        if k < x.len() {
            assert(after.take(mid.len() as int)[before.len() + k] == mid[before.len() + k]);
            assert(mid.skip(before.len() as int)[k] == mid[before.len() + k]);
        } else {
            assert(after.skip(mid.len() as int)[k - x.len()] == after[mid.len() + k - x.len()]);
        }
    }
}

proof fn lemma_nothing_added(d: Seq<ConfigDiagnostic>)
    ensures
        d.take(d.len() as int) == d,
        are_expected(d.skip(d.len() as int), seq![]),
{
    assert(d.take(d.len() as int) =~= d);
    assert(d.skip(d.len() as int) =~= Seq::<ConfigDiagnostic>::empty());
}

fn top_list() -> (r: Vec<&'static str>)
    ensures
        texts(r@) == top_keys(),
        forall|j: int| 0 <= j < r@.len() ==> (#[trigger] r@[j])@.len() <= 32,
{
    let r = vec!["schema_version", "ui", "editor", "database", "search", "themes"];
    proof {
        reveal_strlit("schema_version");
        reveal_strlit("ui");
        reveal_strlit("editor");
        reveal_strlit("database");
        reveal_strlit("search");
        reveal_strlit("themes");
        assert(texts(r@) =~= top_keys());
    }
    r
}

fn theme_list() -> (r: Vec<&'static str>)
    ensures
        texts(r@) == token_names(),
        forall|j: int| 0 <= j < r@.len() ==> (#[trigger] r@[j])@.len() <= 32,
{
    let r = vec!["surface", "text", "muted", "selection", "fragment", "prompt", "tag", "success", "warning", "error"];
    proof {
        reveal_strlit("surface");
        reveal_strlit("text");
        reveal_strlit("muted");
        reveal_strlit("selection");
        reveal_strlit("fragment");
        reveal_strlit("prompt");
        reveal_strlit("tag");
        reveal_strlit("success");
        reveal_strlit("warning");
        reveal_strlit("error");
        assert(texts(r@) =~= token_names());
    }
    r
}

fn same(a: &str, b: &str) -> (r: bool)
    ensures
        r == (a@ == b@),
{
    match crate::order::text_order(a, b) {
        crate::order::Precedence::Same => true,
        _ => false,
    }
}

fn section_list(section: &str) -> (r: Vec<&'static str>)
    ensures
        texts(r@) == section_keys(section@),
        forall|j: int| 0 <= j < r@.len() ==> (#[trigger] r@[j])@.len() <= 32,
{
    let r = if same(section, "ui") {
        vec!["color", "glyphs", "theme", "mouse", "preview"]
    } else if same(section, "editor") {
        vec!["mode", "external"]
    } else if same(section, "database") {
        vec!["path", "busy_timeout_ms", "auto_migrate", "backup_before_migrate", "backup_keep", "journal_mode"]
    } else if same(section, "search") {
        vec!["field", "matcher"]
    } else {
        Vec::new()
    };
    proof {
        reveal_strlit("color");
        reveal_strlit("glyphs");
        reveal_strlit("theme");
        reveal_strlit("mouse");
        reveal_strlit("preview");
        reveal_strlit("mode");
        reveal_strlit("external");
        reveal_strlit("path");
        reveal_strlit("busy_timeout_ms");
        reveal_strlit("auto_migrate");
        reveal_strlit("backup_before_migrate");
        reveal_strlit("backup_keep");
        reveal_strlit("journal_mode");
        reveal_strlit("field");
        reveal_strlit("matcher");
        assert(texts(r@) =~= section_keys(section@));
    }
    r
}

/// Appends the errors of the themes (see `theme_findings`).
fn check_themes(
    themes: &Vec<TomlEntry>,
    inline_only: bool,
    text: &str,
    source: &str,
    diagnostics: &mut Vec<ConfigDiagnostic>,
)
    requires
        forall|j: int| 0 <= j < themes@.len() ==> short_keys(children((#[trigger] themes@[j]).value)),
    ensures
        final(diagnostics)@.len() >= old(diagnostics)@.len(),
        final(diagnostics)@.take(old(diagnostics)@.len() as int) == old(diagnostics)@,
        are_expected(
            final(diagnostics)@.skip(old(diagnostics)@.len() as int),
            theme_findings(themes@, inline_only, text.spec_bytes(), source@),
        ),
{
    let ghost before = diagnostics@;
    let names = theme_list();
    let mut i: usize = 0;
    proof {
        lemma_nothing_added(before);
        assert(themes@.take(0) =~= Seq::<TomlEntry>::empty());
    }
    while i < themes.len()
        invariant
            0 <= i <= themes@.len(),
            forall|j: int| 0 <= j < themes@.len() ==> short_keys(children((#[trigger] themes@[j]).value)),
            texts(names@) == token_names(),
            forall|j: int| 0 <= j < names@.len() ==> (#[trigger] names@[j])@.len() <= 32,
            diagnostics@.len() >= before.len(),
            diagnostics@.take(before.len() as int) == before,
            are_expected(
                diagnostics@.skip(before.len() as int),
                theme_findings(themes@.take(i as int), inline_only, text.spec_bytes(), source@),
            ),
        decreases themes@.len() - i,
    {
        let t = &themes[i];
        let ghost mid = diagnostics@;
        proof {
            assert(themes@.take(i + 1).drop_last() =~= themes@.take(i as int));
            assert(themes@.take(i + 1).last() == *t);
        }
        let mut prefix = "themes.".to_owned();
        prefix.push_str(t.key.as_str());
        let ghost block = theme_block(*t, inline_only, text.spec_bytes(), source@);
        let check = match &t.value {
            TomlValue::Table(_) => !inline_only,
            TomlValue::InlineTable(_) => true,
            TomlValue::Other(_) => false,
        };
        if check {
            let c = match &t.value {
                TomlValue::Table(c) => c,
                TomlValue::InlineTable(c) => c,
                TomlValue::Other(_) => {
                    proof {
                        assert(false);
                    }
                    return;
                },
            };
            proof {
                assert(short_keys(children(t.value)));
                assert forall|a: int, b: int| 0 <= a < c@.len() && 0 <= b < names@.len() implies (#[trigger] c@[a]).key@.len()
                    + (#[trigger] names@[b])@.len() < usize::MAX by {
                    assert(short_key(c@[a]));
                }
            }
            check_level(c, prefix.as_str(), names.as_slice(), text, source, diagnostics);
        } else {
            proof {
                lemma_nothing_added(diagnostics@);
            }
        }
        proof {
            lemma_extend(
                before,
                mid,
                diagnostics@,
                theme_findings(themes@.take(i as int), inline_only, text.spec_bytes(), source@),
                block,
            );
        }
        i = i + 1;
    }
    proof {
        assert(themes@.take(themes@.len() as int) =~= themes@);
    }
}

/// The errors of a document's unknown keys (see `document_findings`): an unknown key
/// with its dotted name, its line where known, and the nearest known key as a suggestion.
pub fn unknown_key_diagnostics(document: &Vec<TomlEntry>, text: &str, source: &str) -> (ds: Vec<ConfigDiagnostic>)
    requires
        sized(document@),
    ensures
        are_expected(ds@, document_findings(document@, text.spec_bytes(), source@)),
{
    let mut diagnostics: Vec<ConfigDiagnostic> = Vec::new();
    let top = top_list();
    let mut i: usize = 0;
    proof {
        lemma_nothing_added(diagnostics@);
        assert(document@.take(0) =~= Seq::<TomlEntry>::empty());
    }
    while i < document.len()
        invariant
            0 <= i <= document@.len(),
            sized(document@),
            texts(top@) == top_keys(),
            forall|j: int| 0 <= j < top@.len() ==> (#[trigger] top@[j])@.len() <= 32,
            are_expected(diagnostics@, document_findings(document@.take(i as int), text.spec_bytes(), source@)),
        decreases document@.len() - i,
    {
        let e = &document[i];
        let ghost mid = diagnostics@;
        let ghost found = document_findings(document@.take(i as int), text.spec_bytes(), source@);
        proof {
            assert(document@.take(i + 1).drop_last() =~= document@.take(i as int));
            assert(document@.take(i + 1).last() == *e);
            assert(short_key(document@[i as int]));
            assert(short_keys(children(e.value)));
            assert(mid.skip(0) =~= mid);
            assert(mid.take(0) =~= Seq::<ConfigDiagnostic>::empty());
        }
        if !is_known(e.key.as_str(), top.as_slice()) {
            report("", e, top.as_slice(), text, source, &mut diagnostics);
            proof {
                assert(diagnostics@.take(mid.len() as int) =~= mid) by {
                    assert forall|k: int| 0 <= k < mid.len() implies diagnostics@[k] == mid[k] by {
                        assert(diagnostics@.drop_last()[k] == diagnostics@[k]);
                    }
                }
                assert(diagnostics@.skip(mid.len() as int) =~= seq![diagnostics@.last()]);
            }
        } else if same(e.key.as_str(), "themes") {
            match &e.value {
                TomlValue::Table(c) => {
                    proof {
                        assert forall|j: int| 0 <= j < c@.len() implies short_keys(children((#[trigger] c@[j]).value)) by {
                            assert(children(document@[i as int].value)[j] == c@[j]);
                        }
                    }
                    check_themes(c, false, text, source, &mut diagnostics);
                },
                TomlValue::InlineTable(c) => {
                    proof {
                        assert forall|j: int| 0 <= j < c@.len() implies short_keys(children((#[trigger] c@[j]).value)) by {
                            assert(children(document@[i as int].value)[j] == c@[j]);
                        }
                    }
                    check_themes(c, true, text, source, &mut diagnostics);
                },
                TomlValue::Other(_) => {
                    proof {
                        lemma_nothing_added(diagnostics@);
                    }
                },
            }
        } else {
            let keys = section_list(e.key.as_str());
            if keys.len() > 0 {
                match &e.value {
                    TomlValue::Table(c) => {
                        proof {
                            assert forall|a: int, b: int| 0 <= a < c@.len() && 0 <= b < keys@.len() implies (
                            #[trigger] c@[a]).key@.len() + (#[trigger] keys@[b])@.len() < usize::MAX by {
                                assert(short_key(c@[a]));
                            }
                        }
                        check_level(c, e.key.as_str(), keys.as_slice(), text, source, &mut diagnostics);
                    },
                    TomlValue::InlineTable(c) => {
                        proof {
                            assert forall|a: int, b: int| 0 <= a < c@.len() && 0 <= b < keys@.len() implies (
                            #[trigger] c@[a]).key@.len() + (#[trigger] keys@[b])@.len() < usize::MAX by {
                                assert(short_key(c@[a]));
                            }
                        }
                        check_level(c, e.key.as_str(), keys.as_slice(), text, source, &mut diagnostics);
                    },
                    TomlValue::Other(_) => {
                        proof {
                            lemma_nothing_added(diagnostics@);
                        }
                    },
                }
            } else {
                proof {
                    lemma_nothing_added(diagnostics@);
                }
            }
        }
        proof {
            lemma_extend(Seq::empty(), mid, diagnostics@, found, entry_findings(*e, text.spec_bytes(), source@));
            assert(diagnostics@.skip(0) =~= diagnostics@);
        }
        i = i + 1;
    }
    proof {
        assert(document@.take(document@.len() as int) =~= document@);
    }
    diagnostics
}

} // verus!
