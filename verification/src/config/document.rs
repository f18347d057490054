//! Reading a parsed configuration document: its schema version, the upgrades it needs, and
//! the diagnostics of its unknown keys.

use vstd::prelude::*;

use super::diagnostic::ConfigDiagnostic;
use super::migration::{upgrade_path, upgrade_steps};
use super::schema::{are_expected, raw_diagnostics, Expected, RawConfig, CURRENT_SCHEMA_VERSION};
use super::unknown::{children, document_findings, short_key, short_keys, sized, unknown_key_diagnostics, TomlEntry, TomlValue};
use crate::application::search::chars_of;
use vstd::string::StringSliceAdditionalSpecFns;
use toml_edit::{DocumentMut, Item};

verus! {

/// What a document's `schema_version` key holds.
#[derive(Debug, Clone, Copy, PartialEq, Eq)]
pub enum SchemaField {
    /// The key is missing.
    Absent,
    /// An integer.
    Integer(i64),
    /// Any other value.
    Other,
}

/// The schema a document declares: the current one when it declares none, nothing when the
/// value is not an integer between 0 and `u32::MAX`.
pub open spec fn declared_schema(field: SchemaField) -> Option<u32> {
    match field {
        SchemaField::Absent => Some(CURRENT_SCHEMA_VERSION),
        SchemaField::Integer(v) => if 0 <= v <= u32::MAX {
            Some(v as u32)
        } else {
            None
        },
        SchemaField::Other => None,
    }
}

/// A document read as far as the library decides: its schema, the versions its upgrade
/// writes, and the diagnostics of its keys.
#[derive(Debug)]
pub struct DocumentHead {
    /// Schema the document was written in.
    pub input_schema_version: u32,
    /// Versions the upgrade writes to `schema_version`, in order.
    pub upgrades: Vec<u32>,
    /// Diagnostics of unknown keys.
    pub diagnostics: Vec<ConfigDiagnostic>,
}

/// What toml_edit reads from a configuration text: the entries of its top-level table in
/// document order, each with its key, the offset where its value starts and its value, down
/// to three levels of tables (the tables of the third level are listed without their
/// entries, which the library does not read); or the parser's error message.
pub uninterp spec fn toml_document(text: Seq<char>) -> Result<Seq<TomlEntry>, Seq<char>>;

/// Parses a configuration text with toml_edit's document parser (`str::parse` into
/// `DocumentMut`) and lists its entries (see `toml_document`), each through `toml_entry`.
/// The contract claims only that the result is the one the name gives for the text.
#[verifier::external_body]
fn parse_toml(text: &str) -> (r: Result<Vec<TomlEntry>, String>)
    ensures
        match r {
            Ok(es) => toml_document(text@) == Ok::<Seq<TomlEntry>, Seq<char>>(es@),
            Err(m) => toml_document(text@) == Err::<Seq<TomlEntry>, Seq<char>>(m@),
        },
{
    let doc = text.parse::<DocumentMut>().map_err(|e| e.to_string())?;
    let one = |(k, i): (&str, &Item), c| toml_entry(k, i.span(), i.is_inline_table(), i.is_table(), i.as_integer(), c);
    Ok(doc.iter().map(|x| one(x, x.1.as_table_like().into_iter().flat_map(|t| t.iter()).map(|y| one(y, y.1.as_table_like().into_iter().flat_map(|t| t.iter()).map(|z| one(z, vec![])).collect())).collect())).collect())
}

/// An entry of a document: its key, the offset where its value starts (the start of its
/// span), and a value that is an inline table, a table, or another value with its integer.
pub fn toml_entry(
    key: &str,
    span: Option<std::ops::Range<usize>>,
    inline: bool,
    table: bool,
    integer: Option<i64>,
    children: Vec<TomlEntry>,
) -> (e: TomlEntry)
    ensures
        e.key@ == key@,
        e.start == match span {
            Some(r) => Some(r.start),
            None => None::<usize>,
        },
        e.value == if inline {
            TomlValue::InlineTable(children)
        } else if table {
            TomlValue::Table(children)
        } else {
            TomlValue::Other(integer)
        },
{
    let start = match span {
        Some(r) => Some(r.start),
        None => None,
    };
    let value = if inline {
        TomlValue::InlineTable(children)
    } else if table {
        TomlValue::Table(children)
    } else {
        TomlValue::Other(integer)
    };
    TomlEntry { key: key.to_owned(), start, value }
}

/// What a document's top-level `schema_version` key holds (see `SchemaField`).
pub open spec fn schema_field(entries: Seq<TomlEntry>) -> SchemaField
    decreases entries.len(),
{
    if entries.len() == 0 {
        SchemaField::Absent
    } else if entries[0].key@ == "schema_version"@ {
        match entries[0].value {
            TomlValue::Other(Some(v)) => SchemaField::Integer(v),
            _ => SchemaField::Other,
        }
    } else {
        schema_field(entries.drop_first())
    }
}

/// What a document's `schema_version` key holds (see `schema_field`).
pub fn schema_of(entries: &Vec<TomlEntry>) -> (f: SchemaField)
    ensures
        f == schema_field(entries@),
{
    let mut i: usize = 0;
    proof {
        assert(entries@.skip(0) =~= entries@);
    }
    while i < entries.len()
        invariant
            0 <= i <= entries@.len(),
            schema_field(entries@) == schema_field(entries@.skip(i as int)),
        decreases entries@.len() - i,
    {
        proof {
            assert(entries@.skip(i as int)[0] == entries@[i as int]);
            assert(entries@.skip(i as int).drop_first() =~= entries@.skip(i + 1));
            reveal_strlit("schema_version");
        }
        if let crate::order::Precedence::Same = crate::order::text_order(entries[i].key.as_str(), "schema_version") {
            return match &entries[i].value {
                TomlValue::Other(Some(v)) => SchemaField::Integer(*v),
                _ => SchemaField::Other,
            };
        }
        i = i + 1;
    }
    proof {
        assert(entries@.skip(i as int) =~= Seq::<TomlEntry>::empty());
    }
    SchemaField::Absent
}

/// `r` is what a document with these entries reads as (see `read_document`).
pub open spec fn document_read(
    schema: SchemaField,
    entries: Seq<TomlEntry>,
    text: Seq<u8>,
    source: Seq<char>,
    r: Result<DocumentHead, Vec<ConfigDiagnostic>>,
) -> bool {
    &&& declared_schema(schema) is None ==> (r matches Err(ds) && are_expected(ds@, seq![schema_type_error(source)]))
    &&& declared_schema(schema) is Some && declared_schema(schema)->Some_0 > CURRENT_SCHEMA_VERSION ==> (r matches Err(ds)
        && are_expected(ds@, newer_errors(declared_schema(schema)->Some_0, source)))
    &&& declared_schema(schema) is Some && declared_schema(schema)->Some_0 <= CURRENT_SCHEMA_VERSION ==> (r matches Ok(h)
        && h.input_schema_version == declared_schema(schema)->Some_0 && h.upgrades@ == upgrade_path(
        declared_schema(schema)->Some_0,
    ) && are_expected(h.diagnostics@, key_findings(entries, text, source)))
}

/// The error of a text that does not parse, with the parser's message.
pub open spec fn parse_error(message: Seq<char>, source: Seq<char>) -> Expected {
    ("E_CONFIG_PARSE"@, message, None, Some(source), None)
}

/// Parses a configuration text read from `source` and reads the document (see
/// `toml_document` and `read_document`): a text that does not parse is one error with the
/// parser's message.
pub fn parse_config_head(text: &str, source: &str) -> (r: Result<DocumentHead, Vec<ConfigDiagnostic>>)
    ensures
        toml_document(text@) is Err ==> (r matches Err(ds) && are_expected(ds@, seq![parse_error(toml_document(text@)->Err_0, source@)])),
        toml_document(text@) is Ok ==> document_read(
            schema_field(toml_document(text@)->Ok_0),
            toml_document(text@)->Ok_0,
            text.spec_bytes(),
            source@,
            r,
        ),
{
    match parse_toml(text) {
        Err(message) => {
            let d = ConfigDiagnostic::error("E_CONFIG_PARSE", message.as_str()).with_source(source);
            Err(vec![d])
        },
        Ok(entries) => {
            let schema = schema_of(&entries);
            read_document(schema, &entries, text, source)
        },
    }
}

/// The error for a `schema_version` that is not a schema number.
pub open spec fn schema_type_error(source: Seq<char>) -> Expected {
    ("E_CONFIG_TYPE"@, "schema_version must be a non-negative 32-bit integer"@, Some("schema_version"@), Some(source), None)
}

/// The error for a schema newer than this build.
pub open spec fn schema_new_error(source: Seq<char>) -> Expected {
    ("E_CONFIG_SCHEMA_NEW"@, "newer schema is incompatible"@, None, Some(source), None)
}

/// The error for a key too long to be checked.
pub open spec fn long_key_error(source: Seq<char>) -> Expected {
    ("E_CONFIG_PARSE"@, "configuration key is too long"@, None, Some(source), None)
}

/// The settings of a document that declares a newer schema and nothing else.
pub open spec fn newer_raw(v: u32) -> RawConfig {
    RawConfig { schema_version: Some(v), ui: None, editor: None, database: None, search: None, themes: None }
}

/// What refuses a document of a newer schema: the newer settings' own errors, if any, else
/// the incompatibility.
pub open spec fn newer_errors(v: u32, source: Seq<char>) -> Seq<Expected> {
    if raw_diagnostics(newer_raw(v), source).len() > 0 {
        raw_diagnostics(newer_raw(v), source)
    } else {
        seq![schema_new_error(source)]
    }
}

/// The diagnostics of a document's keys: its unknown keys, or one error when a key is too
/// long to be checked.
pub open spec fn key_findings(entries: Seq<TomlEntry>, text: Seq<u8>, source: Seq<char>) -> Seq<Expected> {
    if sized(entries) {
        document_findings(entries, text, source)
    } else {
        seq![long_key_error(source)]
    }
}

/// Whether every key of a table is short (see `short_keys`).
fn keys_short(es: &Vec<TomlEntry>) -> (b: bool)
    ensures
        b == short_keys(es@),
{
    let mut i: usize = 0;
    while i < es.len()
        invariant
            0 <= i <= es@.len(),
            forall|p: int| 0 <= p < i ==> short_key(#[trigger] es@[p]),
        decreases es@.len() - i,
    {
        let n = chars_of(es[i].key.as_str()).len();
        if n >= usize::MAX - 32 {
            return false;
        }
        i = i + 1;
    }
    true
}

/// The entries a value holds, if it is a table.
fn table_of(v: &TomlValue) -> (r: Option<&Vec<TomlEntry>>)
    ensures
        match r {
            Some(c) => c@ == children(*v),
            None => children(*v) == Seq::<TomlEntry>::empty(),
        },
{
    match v {
        TomlValue::Table(c) => Some(c),
        TomlValue::InlineTable(c) => Some(c),
        TomlValue::Other(_) => None,
    }
}

/// Whether the keys of a document are short enough to be checked (see `sized`).
pub fn keys_sized(document: &Vec<TomlEntry>) -> (b: bool)
    ensures
        b == sized(document@),
{
    if !keys_short(document) {
        return false;
    }
    let mut i: usize = 0;
    while i < document.len()
        invariant
            0 <= i <= document@.len(),
            short_keys(document@),
            forall|p: int|
                0 <= p < i ==> short_keys(children((#[trigger] document@[p]).value)) && forall|j: int|
                    0 <= j < children(document@[p].value).len() ==> short_keys(
                        children((#[trigger] children(document@[p].value)[j]).value),
                    ),
        decreases document@.len() - i,
    {
        match table_of(&document[i].value) {
            Some(kids) => {
                if !keys_short(kids) {
                    return false;
                }
                let mut j: usize = 0;
                while j < kids.len()
                    invariant
                        0 <= j <= kids@.len(),
                        0 <= i < document@.len(),
                        kids@ == children(document@[i as int].value),
                        forall|q: int| 0 <= q < j ==> short_keys(children((#[trigger] kids@[q]).value)),
                    decreases kids@.len() - j,
                {
                    match table_of(&kids[j].value) {
                        Some(grand) => {
                            if !keys_short(grand) {
                                proof {
                                    let d = document@[i as int];
                                    assert(children(d.value)[j as int] == kids@[j as int]);
                                    assert(!short_keys(children((children(d.value)[j as int]).value)));
                                }
                                return false;
                            }
                        },
                        None => {},
                    }
                    j = j + 1;
                }
            },
            None => {},
        }
        i = i + 1;
    }
    true
}

/// Reads a parsed configuration document, given what its `schema_version` key holds and its
/// entries: a `schema_version` that is no schema number is a type error; a newer schema is
/// refused, with the newer settings' own errors first if any; otherwise the document's
/// schema, the versions its upgrade writes, and the diagnostics of its unknown keys (or one
/// error when a key is too long to be checked).
pub fn read_document(schema: SchemaField, entries: &Vec<TomlEntry>, text: &str, source: &str) -> (r: Result<
    DocumentHead,
    Vec<ConfigDiagnostic>,
>)
    ensures
        document_read(schema, entries@, text.spec_bytes(), source@, r),
{
    let version: u32 = match schema {
        SchemaField::Absent => CURRENT_SCHEMA_VERSION,
        SchemaField::Integer(v) => {
            if 0 <= v && v <= 4294967295 {
                v as u32
            } else {
                let d = ConfigDiagnostic::error("E_CONFIG_TYPE", "schema_version must be a non-negative 32-bit integer")
                    .with_key("schema_version").with_source(source);
                return Err(vec![d]);
            }
        },
        SchemaField::Other => {
            let d = ConfigDiagnostic::error("E_CONFIG_TYPE", "schema_version must be a non-negative 32-bit integer")
                .with_key("schema_version").with_source(source);
            return Err(vec![d]);
        },
    };
    if version > CURRENT_SCHEMA_VERSION {
        let newer = RawConfig { schema_version: Some(version), ui: None, editor: None, database: None, search: None, themes: None };
        return match newer.validate_at(source) {
            Err(diagnostics) => Err(diagnostics),
            Ok(_) => {
                let d = ConfigDiagnostic::error("E_CONFIG_SCHEMA_NEW", "newer schema is incompatible").with_source(source);
                Err(vec![d])
            },
        };
    }
    let upgrades = match upgrade_steps(version) {
        Ok(steps) => steps,
        Err(diagnostics) => {
            return Err(diagnostics);
        },
    };
    let diagnostics = if keys_sized(entries) {
        unknown_key_diagnostics(entries, text, source)
    } else {
        let d = ConfigDiagnostic::error("E_CONFIG_PARSE", "configuration key is too long").with_source(source);
        vec![d]
    };
    Ok(DocumentHead { input_schema_version: version, upgrades, diagnostics })
}

} // verus!
