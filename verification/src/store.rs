//! Rules of the persisted catalog: a stored row becomes a domain node, the schema
//! ledger decides whether a database can be used, and what opening one must do first.

use vstd::prelude::*;
use vstd::string::StringSliceAdditionalSpecFns;
use sha2::Digest;

use crate::diagnostic::{plain_error, Diagnostic, DiagnosticCategory};
use crate::domain::catalog::{admissible, all_admissible, first_inadmissible, CatalogSnapshot};
use crate::domain::graph::{acyclic, refs_closed};
use crate::domain::error::{domain_message, DomainError};
use crate::domain::metadata::{
    blank, normalized_description, opt_view, strictly_sorted, tag_set, tag_texts, Metadata, Tag,
};
use crate::domain::node::{
    byte_offset_of, valid_symbol, xml_char, Node, NodeBody, NodeHeader, NodeId, NodeKind, NonEmptyChildren, Revision,
    Symbol, XmlText,
};
use crate::text::{push_signed_decimal, signed_decimal};

verus! {

/// The application identifier that marks a catalog database.
pub const APPLICATION_ID: i32 = 0x5052_4d50;

/// The newest database schema this library reads and writes.
pub const SCHEMA_VERSION: i32 = 1;

/// The name of the first schema migration.
pub const MIGRATION_NAME: &'static str = "0001_initial";

/// A node as the store holds it: the columns of its row, its tags, and its fragment text or
/// its children, as read for its kind.
#[derive(Debug, Clone)]
pub struct StoredNode {
    /// `id`.
    pub id: i64,
    /// `symbol`.
    pub symbol: String,
    /// `kind`: `fragment` or `prompt`.
    pub kind: String,
    /// `revision`.
    pub revision: i64,
    /// `description`.
    pub description: Option<String>,
    /// `created_at_ms`.
    pub created_at_ms: i64,
    /// `updated_at_ms`.
    pub updated_at_ms: i64,
    /// The node's tags, in the store's order.
    pub tags: Vec<String>,
    /// The fragment's text; read only for a fragment.
    pub text: String,
    /// The prompt's children, by position; read only for a prompt.
    pub children: Vec<i64>,
}

/// Why a stored row is no node.
pub enum RowFault {
    /// A value breaks a domain rule.
    Domain(DomainError),
    /// The kind is neither `fragment` nor `prompt`.
    Kind,
}

/// The first index of a text that is no XML character.
pub open spec fn first_bad_xml(s: Seq<char>) -> int {
    choose|k: int| 0 <= k < s.len() && !xml_char(s[k]) && forall|j: int| 0 <= j < k ==> xml_char(#[trigger] s[j])
}

/// Some character of a text is no XML character.
pub open spec fn has_bad_xml(s: Seq<char>) -> bool {
    !(forall|i: int| 0 <= i < s.len() ==> xml_char(#[trigger] s[i]))
}

/// The first stored tag that is blank, if any.
pub open spec fn has_blank_tag(tags: Seq<String>) -> bool {
    exists|i: int| 0 <= i < tags.len() && blank(#[trigger] tags[i]@)
}

/// The first child that is no identity, if any.
pub open spec fn first_bad_child(children: Seq<i64>) -> int {
    choose|k: int| 0 <= k < children.len() && children[k] <= 0 && forall|j: int| 0 <= j < k ==> #[trigger] children[j] > 0
}

/// Some child is no identity.
pub open spec fn has_bad_child(children: Seq<i64>) -> bool {
    exists|k: int| 0 <= k < children.len() && children[k] <= 0
}

/// What is wrong with a stored row, checked in this order: identity, symbol, revision,
/// tags, then the kind and its payload.
pub open spec fn row_fault(row: StoredNode) -> Option<RowFault> {
    if row.id <= 0 {
        Some(RowFault::Domain(DomainError::InvalidPositiveInteger { kind: "node id", value: row.id as i128 }))
    } else if !valid_symbol(row.symbol@) {
        Some(RowFault::Domain(DomainError::InvalidSymbol(row.symbol)))
    } else if row.revision <= 0 {
        Some(RowFault::Domain(DomainError::InvalidPositiveInteger { kind: "revision", value: row.revision as i128 }))
    } else if has_blank_tag(row.tags@) {
        Some(RowFault::Domain(DomainError::EmptyTag))
    } else if row.kind@ == "fragment"@ {
        if has_bad_xml(row.text@) {
            Some(
                RowFault::Domain(
                    DomainError::InvalidXmlCharacter {
                        character: row.text@[first_bad_xml(row.text@)],
                        byte_offset: byte_offset_of(row.text@, first_bad_xml(row.text@)) as usize,
                    },
                ),
            )
        } else {
            None
        }
    } else if row.kind@ == "prompt"@ {
        if has_bad_child(row.children@) {
            Some(
                RowFault::Domain(
                    DomainError::InvalidPositiveInteger {
                        kind: "node id",
                        value: row.children@[first_bad_child(row.children@)] as i128,
                    },
                ),
            )
        } else if row.children@.len() == 0 {
            Some(RowFault::Domain(DomainError::EmptyChildren))
        } else {
            None
        }
    } else {
        Some(RowFault::Kind)
    }
}

/// The set of texts of stored tags.
pub open spec fn stored_tags(tags: Seq<String>) -> Set<Seq<char>> {
    Set::new(|x: Seq<char>| exists|i: int| 0 <= i < tags.len() && (#[trigger] tags[i])@ == x)
}

/// `n` is the node a faultless row stores.
pub open spec fn node_of_row(n: Node, row: StoredNode) -> bool {
    &&& n.header.id.id() == row.id
    &&& n.header.symbol@ == row.symbol@
    &&& n.header.revision.number() == row.revision
    &&& n.header.metadata.description_view() == normalized_description(opt_view(row.description))
    &&& tag_set(n.header.metadata.tag_seq()) == stored_tags(row.tags@)
    &&& strictly_sorted(n.header.metadata.tag_seq())
    &&& n.header.created_at_ms == row.created_at_ms
    &&& n.header.updated_at_ms == row.updated_at_ms
    &&& row.kind@ == "fragment"@ ==> (n.header.kind == NodeKind::Fragment && (n.body matches NodeBody::Fragment(t)
        && t@ == row.text@))
    &&& row.kind@ == "prompt"@ ==> (n.header.kind == NodeKind::Prompt && (n.body matches NodeBody::Prompt(c) && c@.len()
        == row.children@.len() && forall|i: int| 0 <= i < row.children@.len() ==> (#[trigger] c@[i]).id()
        == row.children@[i]))
}

/// The diagnostic of a domain rule a stored value breaks.
pub fn domain_diagnostic(e: DomainError) -> (d: Diagnostic)
    ensures
        plain_error(d, "E_DOMAIN"@, DiagnosticCategory::Domain, domain_message(e)),
{
    let message = e.message();
    Diagnostic::error("E_DOMAIN", DiagnosticCategory::Domain, message.as_str())
}

fn same(a: &str, b: &str) -> (r: bool)
    ensures
        r == (a@ == b@),
{
    match crate::order::text_order(a, b) {
        crate::order::Precedence::Same => true,
        _ => false,
    }
}

/// Turns a stored row into a domain node; the first fault (see `row_fault`) is the error.
#[verifier::loop_isolation(false)]
pub fn node_from_row(row: StoredNode) -> (r: Result<Node, Diagnostic>)
    ensures
        match row_fault(row) {
            Some(RowFault::Domain(e)) => r matches Err(d) && plain_error(d, "E_DOMAIN"@, DiagnosticCategory::Domain, domain_message(e)),
            Some(RowFault::Kind) => r matches Err(d) && plain_error(
                d,
                "E_DB_KIND"@,
                DiagnosticCategory::Internal,
                "unknown persisted node kind `"@ + row.kind@ + "`"@,
            ),
            None => r matches Ok(n) && node_of_row(n, row),
        },
{
    let ghost orig = row;
    proof {
        reveal_strlit("prompt");
        reveal_strlit("fragment");
        assert("prompt"@ != "fragment"@) by {
            assert("prompt"@.len() != "fragment"@.len());
        }
    }
    let id = match NodeId::new(row.id) {
        Ok(v) => v,
        Err(e) => return Err(domain_diagnostic(e)),
    };
    let symbol = match Symbol::new(row.symbol.as_str()) {
        Ok(v) => v,
        Err(e) => return Err(domain_diagnostic(e)),
    };
    if row.revision < 0 {
        return Err(domain_diagnostic(DomainError::InvalidPositiveInteger { kind: "revision", value: row.revision as i128 }));
    }
    let revision = match Revision::new(row.revision as u64) {
        Ok(v) => v,
        Err(e) => return Err(domain_diagnostic(e)),
    };
    let mut tags: Vec<Tag> = Vec::new();
    let mut i: usize = 0;
    while i < row.tags.len()
        invariant
            row == orig,
            row.id > 0,
            valid_symbol(row.symbol@),
            row.revision > 0,
            0 <= i <= row.tags@.len(),
            forall|j: int| 0 <= j < i ==> !blank(#[trigger] row.tags@[j]@),
            tags@.len() == i,
            forall|j: int| 0 <= j < i ==> (#[trigger] tags@[j])@ == row.tags@[j]@,
        decreases row.tags@.len() - i,
    {
        match Tag::new(row.tags[i].as_str()) {
            Ok(t) => tags.push(t),
            Err(e) => {
                proof {
                    assert(blank(row.tags@[i as int]@));
                    assert(has_blank_tag(row.tags@));
                }
                return Err(domain_diagnostic(e));
            },
        }
        i = i + 1;
    }
    proof {
        assert(!has_blank_tag(row.tags@));
        assert(tag_set(tags@) =~= stored_tags(row.tags@)) by {
            assert forall|x: Seq<char>| tag_set(tags@).contains(x) implies stored_tags(row.tags@).contains(x) by {
                let j = choose|j: int| 0 <= j < tags@.len() && (#[trigger] tags@[j])@ == x;
                assert(row.tags@[j]@ == x);
            }
            assert forall|x: Seq<char>| stored_tags(row.tags@).contains(x) implies tag_set(tags@).contains(x) by {
                let j = choose|j: int| 0 <= j < row.tags@.len() && (#[trigger] row.tags@[j])@ == x;
                assert(tags@[j]@ == x);
            }
        }
    }
    let StoredNode { id: _, symbol: _, kind, revision: _, description, created_at_ms, updated_at_ms, tags: _, text, children } = row;
    let metadata = Metadata::new(description, tags);
    let (node_kind, body) = if same(kind.as_str(), "fragment") {
        match XmlText::new(text.as_str()) {
            Ok(t) => (NodeKind::Fragment, NodeBody::Fragment(t)),
            Err(e) => {
                proof {
                    let k = choose|k: int|
                        0 <= k < text@.len() && !xml_char(text@[k]) && (forall|j: int| 0 <= j < k ==> xml_char(#[trigger] text@[j]))
                            && e == DomainError::InvalidXmlCharacter {
                            character: text@[k],
                            byte_offset: byte_offset_of(text@, k) as usize,
                        };
                    let f = first_bad_xml(text@);
                    assert(0 <= f < text@.len() && !xml_char(text@[f]) && forall|j: int| 0 <= j < f ==> xml_char(#[trigger] text@[j]));
                    if f < k {
                        assert(xml_char(text@[f]));
                    }
                    if k < f {
                        assert(xml_char(text@[k]));
                    }
                }
                return Err(domain_diagnostic(e));
            },
        }
    } else if same(kind.as_str(), "prompt") {
        let mut ids: Vec<NodeId> = Vec::new();
        let mut j: usize = 0;
        while j < children.len()
            invariant
                children@ == orig.children@,
                kind@ == orig.kind@,
                kind@ == "prompt"@,
                orig.kind@ != "fragment"@,
                orig.id > 0,
                valid_symbol(orig.symbol@),
                orig.revision > 0,
                !has_blank_tag(orig.tags@),
                0 <= j <= children@.len(),
                ids@.len() == j,
                forall|k: int| 0 <= k < j ==> #[trigger] children@[k] > 0,
                forall|k: int| 0 <= k < j ==> (#[trigger] ids@[k]).id() == children@[k],
            decreases children@.len() - j,
        {
            match NodeId::new(children[j]) {
                Ok(c) => {
                    ids.push(c);
                    proof {
                        assert(ids@[j as int] == c);
                    }
                },
                Err(e) => {
                    proof {
                        let f = first_bad_child(children@);
                        assert(0 <= j < children@.len() && children@[j as int] <= 0 && forall|k: int| 0 <= k < j ==> #[trigger] children@[k] > 0);
                        assert(0 <= f < children@.len() && children@[f] <= 0 && forall|k: int| 0 <= k < f ==> #[trigger] children@[k] > 0);
                        if f < j {
                            assert(children@[f] > 0);
                        }
                        if j < f {
                            assert(children@[j as int] > 0);
                        }
                    }
                    return Err(domain_diagnostic(e));
                },
            }
            j = j + 1;
        }
        match NonEmptyChildren::new(ids) {
            Ok(c) => (NodeKind::Prompt, NodeBody::Prompt(c)),
            Err(e) => return Err(domain_diagnostic(e)),
        }
    } else {
        let mut message = "unknown persisted node kind `".to_owned();
        message.push_str(kind.as_str());
        message.push_str("`");
        return Err(Diagnostic::error("E_DB_KIND", DiagnosticCategory::Internal, message.as_str()));
    };
    let header = NodeHeader { id, symbol, kind: node_kind, revision, metadata, created_at_ms, updated_at_ms };
    match Node::from_parts(header, body) {
        Ok(n) => Ok(n),
        Err(e) => Err(domain_diagnostic(e)),
    }
}

/// Every row stores a node.
pub open spec fn rows_fine(rows: Seq<StoredNode>) -> bool {
    forall|i: int| 0 <= i < rows.len() ==> #[trigger] row_fault(rows[i]) is None
}

/// `ns` are the nodes the rows store, in order.
pub open spec fn nodes_of_rows(ns: Seq<Node>, rows: Seq<StoredNode>) -> bool {
    &&& ns.len() == rows.len()
    &&& forall|i: int| 0 <= i < rows.len() ==> node_of_row(#[trigger] ns[i], rows[i])
}

/// Nodes that make a catalog: admissible one by one, every child present, no cycle.
pub open spec fn valid_catalog(ns: Seq<Node>) -> bool {
    all_admissible(ns) && refs_closed(ns) && acyclic(ns)
}

/// `d` is the error of the first row that stores no node, the `i`-th.
pub open spec fn first_row_error(rows: Seq<StoredNode>, i: int, d: Diagnostic) -> bool {
    &&& 0 <= i < rows.len()
    &&& forall|j: int| 0 <= j < i ==> #[trigger] row_fault(rows[j]) is None
    &&& match row_fault(rows[i]) {
        Some(RowFault::Domain(e)) => plain_error(d, "E_DOMAIN"@, DiagnosticCategory::Domain, domain_message(e)),
        Some(RowFault::Kind) => plain_error(
            d,
            "E_DB_KIND"@,
            DiagnosticCategory::Internal,
            "unknown persisted node kind `"@ + rows[i].kind@ + "`"@,
        ),
        None => false,
    }
}

/// The catalog the stored rows hold: the first row that stores no node is the error;
/// otherwise the nodes must make a catalog (see `CatalogSnapshot::new`), the domain error
/// being the error.
#[verifier::loop_isolation(false)]
pub fn snapshot_from_rows(rows: Vec<StoredNode>) -> (r: Result<CatalogSnapshot, Diagnostic>)
    ensures
        r matches Ok(s) ==> rows_fine(rows@) && nodes_of_rows(s.nodes(), rows@) && valid_catalog(s.nodes()),
        r matches Err(d) ==> (exists|i: int| first_row_error(rows@, i, d)) || (rows_fine(rows@) && exists|ns: Seq<Node>|
            nodes_of_rows(ns, rows@) && !valid_catalog(ns) && d.code@ == "E_DOMAIN"@),
        rows_fine(rows@) && (forall|ns: Seq<Node>| nodes_of_rows(ns, rows@) ==> valid_catalog(ns)) ==> r is Ok,
{
    let ghost all = rows@;
    let mut rows = rows;
    let mut nodes: Vec<Node> = Vec::new();
    let count = rows.len();
    let mut i: usize = 0;
    while rows.len() > 0
        invariant
            all.len() == count,
            0 <= i <= all.len(),
            rows@ == all.skip(i as int),
            nodes@.len() == i,
            forall|j: int| 0 <= j < i ==> #[trigger] row_fault(all[j]) is None,
            forall|j: int| 0 <= j < i ==> node_of_row(#[trigger] nodes@[j], all[j]),
        decreases rows@.len(),
    {
        assert(i < all.len());
        let row = rows.remove(0);
        proof {
            assert(row == all[i as int]);
            assert(all.skip(i + 1) =~= rows@);
        }
        match node_from_row(row) {
            Ok(n) => {
                nodes.push(n);
                proof {
                    assert(nodes@[i as int] == n);
                }
            },
            Err(d) => {
                proof {
                    assert(first_row_error(all, i as int, d));
                }
                return Err(d);
            },
        }
        i = i + 1;
    }
    proof {
        assert(rows_fine(all));
        assert(nodes_of_rows(nodes@, all));
    }
    let ghost ns = nodes@;
    proof {
        if !all_admissible(ns) {
            lemma_first_inadmissible(ns, ns.len() as int);
        }
    }
    match CatalogSnapshot::new(nodes) {
        Ok(s) => Ok(s),
        Err(e) => {
            proof {
                assert(nodes_of_rows(ns, all));
                assert(!valid_catalog(ns));
            }
            Err(domain_diagnostic(e))
        },
    }
}

proof fn lemma_first_inadmissible(ns: Seq<Node>, m: int)
    requires
        0 <= m <= ns.len(),
        exists|k: int| 0 <= k < m && !#[trigger] admissible(ns, k),
    ensures
        exists|k: int| first_inadmissible(ns, k),
    decreases m,
{
    if forall|j: int| 0 <= j < m - 1 ==> #[trigger] admissible(ns, j) {
        let k = choose|k: int| 0 <= k < m && !#[trigger] admissible(ns, k);
        if k < m - 1 {
            assert(admissible(ns, k));
        }
        assert(first_inadmissible(ns, m - 1));
    } else {
        lemma_first_inadmissible(ns, m - 1);
    }
}

/// The first schema migration: the canonical tables of the catalog.
pub const SCHEMA_SQL: &'static str = r#"
CREATE TABLE schema_migrations(
  version INTEGER PRIMARY KEY, name TEXT NOT NULL UNIQUE, checksum TEXT NOT NULL,
  applied_at_ms INTEGER NOT NULL, app_version TEXT NOT NULL
) STRICT;
CREATE TABLE nodes(
  id INTEGER PRIMARY KEY, symbol TEXT NOT NULL UNIQUE, kind TEXT NOT NULL CHECK(kind IN ('fragment','prompt')),
  revision INTEGER NOT NULL CHECK(revision > 0), description TEXT,
  created_at_ms INTEGER NOT NULL, updated_at_ms INTEGER NOT NULL
) STRICT;
CREATE TABLE fragments(
  node_id INTEGER PRIMARY KEY REFERENCES nodes(id) ON DELETE CASCADE, text TEXT NOT NULL
) STRICT;
CREATE TABLE prompt_edges(
  parent_id INTEGER NOT NULL REFERENCES nodes(id) ON DELETE CASCADE,
  position INTEGER NOT NULL CHECK(position >= 0), child_id INTEGER NOT NULL REFERENCES nodes(id) ON DELETE RESTRICT,
  PRIMARY KEY(parent_id, position)
) STRICT;
CREATE INDEX prompt_edges_child ON prompt_edges(child_id, parent_id, position);
CREATE TABLE tags(tag TEXT PRIMARY KEY) STRICT;
CREATE TABLE node_tags(
  node_id INTEGER NOT NULL REFERENCES nodes(id) ON DELETE CASCADE,
  tag TEXT NOT NULL REFERENCES tags(tag) ON DELETE RESTRICT,
  PRIMARY KEY(node_id, tag)
) STRICT;
CREATE TABLE app_state(key TEXT PRIMARY KEY, value INTEGER NOT NULL) STRICT;
INSERT INTO app_state(key,value) VALUES('catalog_revision',0);
"#;

/// The SHA-256 digest of some bytes, written as lower-case hexadecimal.
pub uninterp spec fn sha256_hex(bytes: Seq<u8>) -> Seq<char>;

/// `sha2::Sha256::digest` of a text's bytes, formatted with `{:x}`: the digest's 32
/// bytes as 64 lower-case hexadecimal digits. Which digits they are is named, not stated.
#[verifier::external_body]
fn sha256_hex_of(text: &str) -> (r: String)
    ensures
        r@ == sha256_hex(text.spec_bytes()),
        r@.len() == 64,
{
    format!("{:x}", sha2::Sha256::digest(text.as_bytes()))
}

/// What the migration ledger of a database holds.
#[derive(Debug, Clone, PartialEq, Eq)]
pub enum Ledger {
    /// There is no ledger table.
    Missing,
    /// The ledger table has no row.
    Empty,
    /// The newest migration recorded.
    Latest {
        /// Its version.
        version: i32,
        /// Its name.
        name: String,
        /// The checksum of its script.
        checksum: String,
    },
}

/// Code, category and message of a diagnostic.
pub type Fault = (Seq<char>, DiagnosticCategory, Seq<char>);

/// The error of a schema newer than this library's.
pub open spec fn schema_new(found: i32) -> Fault {
    (
        "E_SCHEMA_NEW"@,
        DiagnosticCategory::Compatibility,
        "database schema "@ + signed_decimal(found as int) + " is newer than supported schema 1"@,
    )
}

/// The error of a first migration that this library did not write.
pub open spec fn foreign_migration() -> Fault {
    ("E_DB_MIGRATION"@, DiagnosticCategory::Internal, "migration 1 metadata or checksum does not match this executable"@)
}

/// Why a database cannot be used as it is, from its header version and its ledger, where
/// `expected` is the checksum of the first migration's script; `None` where it can.
pub open spec fn ledger_fault(user_version: i32, ledger: Ledger, expected: Seq<char>) -> Option<Fault> {
    if user_version > SCHEMA_VERSION {
        Some(schema_new(user_version))
    } else {
        match ledger {
            Ledger::Missing => Some(("E_DB_MIGRATION"@, DiagnosticCategory::Internal, "migration ledger is missing"@)),
            Ledger::Empty => Some(("E_DB_MIGRATION"@, DiagnosticCategory::Internal, "migration ledger is empty"@)),
            Ledger::Latest { version, name, checksum } => if version != user_version {
                Some(
                    (
                        "E_DB_VERSION_MIRROR"@,
                        DiagnosticCategory::Internal,
                        "user_version "@ + signed_decimal(user_version as int) + " differs from migration ledger "@
                            + signed_decimal(version as int),
                    ),
                )
            } else if version == 1 && (name@ != MIGRATION_NAME@ || checksum@ != expected) {
                Some(foreign_migration())
            } else {
                None
            },
        }
    }
}

/// `d` is the error `f`.
pub open spec fn is_fault(d: Diagnostic, f: Fault) -> bool {
    plain_error(d, f.0, f.1, f.2)
}

fn fault_diagnostic(code: &str, category: DiagnosticCategory, message: &str) -> (d: Diagnostic)
    ensures
        plain_error(d, code@, category, message@),
{
    Diagnostic::error(code, category, message)
}

fn schema_new_diagnostic(found: i32) -> (d: Diagnostic)
    ensures
        is_fault(d, schema_new(found)),
{
    let mut message = "database schema ".to_owned();
    push_signed_decimal(&mut message, found as i128);
    message.push_str(" is newer than supported schema 1");
    fault_diagnostic("E_SCHEMA_NEW", DiagnosticCategory::Compatibility, message.as_str())
}

/// Why a database cannot be used as it is (see `ledger_fault`), given the checksum of the
/// first migration's script.
pub fn ledger_error(user_version: i32, ledger: &Ledger, expected: &str) -> (r: Option<Diagnostic>)
    ensures
        match ledger_fault(user_version, *ledger, expected@) {
            Some(f) => r matches Some(d) && is_fault(d, f),
            None => r is None,
        },
{
    if user_version > SCHEMA_VERSION {
        return Some(schema_new_diagnostic(user_version));
    }
    match ledger {
        Ledger::Missing => Some(fault_diagnostic("E_DB_MIGRATION", DiagnosticCategory::Internal, "migration ledger is missing")),
        Ledger::Empty => Some(fault_diagnostic("E_DB_MIGRATION", DiagnosticCategory::Internal, "migration ledger is empty")),
        Ledger::Latest { version, name, checksum } => {
            if *version != user_version {
                let mut message = "user_version ".to_owned();
                push_signed_decimal(&mut message, user_version as i128);
                message.push_str(" differs from migration ledger ");
                push_signed_decimal(&mut message, *version as i128);
                Some(fault_diagnostic("E_DB_VERSION_MIRROR", DiagnosticCategory::Internal, message.as_str()))
            } else if *version == 1 && (!same(name.as_str(), MIGRATION_NAME) || !same(checksum.as_str(), expected)) {
                Some(
                    fault_diagnostic(
                        "E_DB_MIGRATION",
                        DiagnosticCategory::Internal,
                        "migration 1 metadata or checksum does not match this executable",
                    ),
                )
            } else {
                None
            }
        },
    }
}

/// Why a database cannot be used as it is, checking its first migration against the
/// checksum of this library's script (see `ledger_fault`).
pub fn normal_error(user_version: i32, ledger: &Ledger) -> (r: Option<Diagnostic>)
    ensures
        match ledger_fault(user_version, *ledger, sha256_hex(SCHEMA_SQL.spec_bytes())) {
            Some(f) => r matches Some(d) && is_fault(d, f),
            None => r is None,
        },
{
    let expected = sha256_hex_of(SCHEMA_SQL);
    ledger_error(user_version, ledger, expected.as_str())
}

/// The checksum recorded for the first migration: that of its script.
pub fn schema_checksum() -> (r: String)
    ensures
        r@ == sha256_hex(SCHEMA_SQL.spec_bytes()),
{
    sha256_hex_of(SCHEMA_SQL)
}

/// What opening a database must do first, from its header: a foreign application
/// identifier is refused; a blank header (identifier and version zero) means the schema
/// is created (`true`); anything else is inspected as it is (`false`).
pub fn open_step(application_id: i32, user_version: i32) -> (r: Result<bool, Diagnostic>)
    ensures
        application_id != 0 && application_id != APPLICATION_ID ==> (r matches Err(d) && plain_error(
            d,
            "E_DB_ID"@,
            DiagnosticCategory::Compatibility,
            "database application_id "@ + signed_decimal(application_id as int) + " does not identify a Promptr database"@,
        )),
        application_id == 0 || application_id == APPLICATION_ID ==> r == Ok::<bool, Diagnostic>(
            application_id == 0 && user_version == 0,
        ),
{
    if application_id != 0 && application_id != APPLICATION_ID {
        let mut message = "database application_id ".to_owned();
        push_signed_decimal(&mut message, application_id as i128);
        message.push_str(" does not identify a Promptr database");
        return Err(fault_diagnostic("E_DB_ID", DiagnosticCategory::Compatibility, message.as_str()));
    }
    Ok(application_id == 0 && user_version == 0)
}

/// The version a repair writes back to the header: the ledger's, once neither the header
/// nor the ledger is newer than this library, the ledger is not empty, and a first migration
/// is this library's (`first` holds its name and checksum where the ledger's newest is 1).
pub open spec fn repair_fault(header: i32, ledger: Option<i32>, first: Option<(String, String)>, expected: Seq<char>) -> Option<Fault> {
    if header > SCHEMA_VERSION {
        Some(schema_new(header))
    } else {
        match ledger {
            None => Some(("E_DB_MIGRATION"@, DiagnosticCategory::Internal, "migration ledger is empty"@)),
            Some(v) => if v > SCHEMA_VERSION {
                Some(schema_new(v))
            } else if v == 1 && match first {
                Some((n, c)) => n@ != MIGRATION_NAME@ || c@ != expected,
                None => true,
            } {
                Some(foreign_migration())
            } else {
                None
            },
        }
    }
}

/// Decides a repair of the derived state (see `repair_fault`): the version to write to
/// the header, or why the database cannot be repaired.
pub fn repair_version(header: i32, ledger: Option<i32>, first: Option<(String, String)>) -> (r: Result<i32, Diagnostic>)
    ensures
        match repair_fault(header, ledger, first, sha256_hex(SCHEMA_SQL.spec_bytes())) {
            Some(f) => r matches Err(d) && is_fault(d, f),
            None => r == Ok::<i32, Diagnostic>(ledger.unwrap()),
        },
{
    if header > SCHEMA_VERSION {
        return Err(schema_new_diagnostic(header));
    }
    let v = match ledger {
        None => return Err(fault_diagnostic("E_DB_MIGRATION", DiagnosticCategory::Internal, "migration ledger is empty")),
        Some(v) => v,
    };
    if v > SCHEMA_VERSION {
        return Err(schema_new_diagnostic(v));
    }
    if v == 1 {
        let expected = sha256_hex_of(SCHEMA_SQL);
        let foreign = match &first {
            Some((n, c)) => !same(n.as_str(), MIGRATION_NAME) || !same(c.as_str(), expected.as_str()),
            None => true,
        };
        if foreign {
            return Err(
                fault_diagnostic(
                    "E_DB_MIGRATION",
                    DiagnosticCategory::Internal,
                    "migration 1 metadata or checksum does not match this executable",
                ),
            );
        }
    }
    Ok(v)
}

/// Identity and version of a database.
#[derive(Debug, Clone, PartialEq, Eq)]
pub struct DatabaseStatus {
    /// The file, absent for a store in memory.
    pub path: Option<std::path::PathBuf>,
    /// The header's application identifier.
    pub application_id: i32,
    /// The header's schema version.
    pub user_version: i32,
    /// The newest version the migration ledger records.
    pub ledger_version: Option<i32>,
    /// Whether this library can use the database as it is.
    pub compatible: bool,
}

/// The status of a database from its header and ledger; `usable` tells whether its
/// ledger raised no fault (see `normal_error`).
pub fn database_status(
    path: Option<std::path::PathBuf>,
    application_id: i32,
    user_version: i32,
    ledger: &Ledger,
    usable: bool,
) -> (s: DatabaseStatus)
    ensures
        s.path == path,
        s.application_id == application_id,
        s.user_version == user_version,
        s.ledger_version == match *ledger {
            Ledger::Latest { version, .. } => Some(version),
            _ => None,
        },
        s.compatible == (application_id == APPLICATION_ID && usable),
{
    let ledger_version = match ledger {
        Ledger::Latest { version, .. } => Some(*version),
        _ => None,
    };
    DatabaseStatus { path, application_id, user_version, ledger_version, compatible: application_id == APPLICATION_ID && usable }
}

/// The result of a consistency check.
#[derive(Debug, Clone, PartialEq, Eq)]
pub struct CheckReport {
    /// The rows of SQLite's integrity check.
    pub integrity: Vec<String>,
    /// How many foreign keys are broken.
    pub foreign_key_violations: usize,
    /// Whether the stored rows make a catalog (see `snapshot_from_rows`).
    pub domain_valid: bool,
}

} // verus!
