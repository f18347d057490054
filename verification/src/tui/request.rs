//! Effects of the reducer turned into requests for the shared DSL runtime.

use vstd::prelude::*;

use super::model::{Draft, DraftView, Effect, PreviewTab};
use crate::editor::EditTarget;

verus! {

/// A request for the host's runtime.
#[derive(Debug, PartialEq, Eq)]
pub enum RuntimeRequest {
    /// Evaluate DSL.
    Eval(String),
    /// Load a fragment's text and identity.
    LoadFragmentDraft {
        /// DSL that fetches the text.
        source: String,
        /// Symbol of the fragment.
        symbol: String,
    },
    /// DSL that loads a metadata draft.
    LoadMetadataDraft(String),
    /// Edit a fragment with a draft that can be recovered.
    EditFragment {
        /// DSL that sets up the edit.
        source: String,
        /// The draft handed to the editor.
        draft: Draft,
    },
    /// Edit metadata, expecting the node to be as it was when editing began.
    EditMetadata {
        /// Metadata DSL.
        source: String,
        /// Persistent target captured when editing began.
        target: EditTarget,
        /// Symbol captured when editing began.
        symbol: String,
    },
    /// End the host loop.
    Exit,
}

/// A request as values.
pub enum RequestView {
    /// Evaluate DSL.
    Eval(Seq<char>),
    /// Load a fragment's text and identity.
    LoadFragmentDraft { source: Seq<char>, symbol: Seq<char> },
    /// Load a metadata draft.
    LoadMetadataDraft(Seq<char>),
    /// Edit a fragment.
    EditFragment { source: Seq<char>, draft: DraftView },
    /// Edit metadata.
    EditMetadata { source: Seq<char>, target: EditTarget, symbol: Seq<char> },
    /// End the host loop.
    Exit,
}

impl View for RuntimeRequest {
    type V = RequestView;

    open spec fn view(&self) -> RequestView {
        match self {
            RuntimeRequest::Eval(s) => RequestView::Eval(s@),
            RuntimeRequest::LoadFragmentDraft { source, symbol } => RequestView::LoadFragmentDraft {
                source: source@,
                symbol: symbol@,
            },
            RuntimeRequest::LoadMetadataDraft(s) => RequestView::LoadMetadataDraft(s@),
            RuntimeRequest::EditFragment { source, draft } => RequestView::EditFragment {
                source: source@,
                draft: draft@,
            },
            RuntimeRequest::EditMetadata { source, target, symbol } => RequestView::EditMetadata {
                source: source@,
                target: *target,
                symbol: symbol@,
            },
            RuntimeRequest::Exit => RequestView::Exit,
        }
    }
}

/// The escape for one character inside a DSL string.
pub open spec fn quote_char(c: char) -> Seq<char> {
    if c == '"' {
        seq!['\\', '"']
    } else if c == '\\' {
        seq!['\\', '\\']
    } else if c == '\n' {
        seq!['\\', 'n']
    } else if c == '\r' {
        seq!['\\', 'r']
    } else if c == '\t' {
        seq!['\\', 't']
    } else {
        seq![c]
    }
}

/// The characters of a text, escaped.
pub open spec fn quote_body(s: Seq<char>) -> Seq<char>
    decreases s.len(),
{
    if s.len() == 0 {
        seq![]
    } else {
        quote_body(s.drop_last()) + quote_char(s.last())
    }
}

/// A text as a DSL string literal: in double quotes, with quotes, backslashes, newlines,
/// carriage returns and tabs escaped.
pub open spec fn quoted(s: Seq<char>) -> Seq<char> {
    seq!['"'] + quote_body(s) + seq!['"']
}

/// Writes a text as a DSL string literal.
pub fn quote(value: &str) -> (out: String)
    ensures
        out@ == quoted(value@),
{
    let mut out = String::new();
    out.push('"');
    let mut it = value.chars();
    let ghost whole = value@;
    let ghost mut k: int = 0;
    broadcast use vstd::string::group_string_axioms;

    loop
        invariant
            whole == value@,
            0 <= k <= whole.len(),
            vstd::std_specs::iter::IteratorSpec::remaining(&it) == whole.skip(k),
            out@ == seq!['"'] + quote_body(whole.take(k)),
        decreases whole.len() - k,
    {
        match it.next() {
            None => {
                assert(whole.skip(k).len() == 0);
                assert(whole.take(k) =~= whole);
                out.push('"');
                return out;
            },
            Some(c) => {
                assert(c == whole[k]);
                let ghost before = out@;
                if c == '"' {
                    out.push_str("\\\"");
                } else if c == '\\' {
                    out.push_str("\\\\");
                } else if c == '\n' {
                    out.push_str("\\n");
                } else if c == '\r' {
                    out.push_str("\\r");
                } else if c == '\t' {
                    out.push_str("\\t");
                } else {
                    out.push(c);
                }
                proof {
                    reveal_strlit("\\\"");
                    reveal_strlit("\\\\");
                    reveal_strlit("\\n");
                    reveal_strlit("\\r");
                    reveal_strlit("\\t");
                    assert(out@ =~= before + quote_char(c));
                    assert(whole.take(k + 1).drop_last() =~= whole.take(k));
                    assert(whole.take(k + 1).last() == c);
                    assert(out@ =~= seq!['"'] + quote_body(whole.take(k + 1)));
                    k = k + 1;
                    assert(whole.skip(k) =~= whole.skip(k - 1).drop_first());
                }
            },
        }
    }
}

/// `prefix`, the text, then `suffix`.
fn framed(prefix: &str, text: &str, suffix: &str) -> (s: String)
    ensures
        s@ == prefix@ + text@ + suffix@,
{
    let mut s = prefix.to_owned();
    s.push_str(text);
    s.push_str(suffix);
    s
}

/// The request an effect needs, if any.
pub open spec fn request_for(effect: Effect) -> Option<RequestView> {
    match effect {
        Effect::Execute(source) => Some(RequestView::Eval(source@)),
        Effect::Search(query) => Some(RequestView::Eval("SEARCH "@ + quoted(query@) + ";"@)),
        Effect::SaveFragment(draft) => match draft.symbol {
            Some(symbol) => Some(RequestView::EditFragment { source: "FRAGMENT "@ + symbol@ + ";"@, draft: draft@ }),
            None => None,
        },
        Effect::LoadFragmentDraft(symbol) => Some(
            RequestView::LoadFragmentDraft {
                source: "PRINT "@ + symbol@ + "; OUTPUT "@ + symbol@ + ";"@,
                symbol: symbol@,
            },
        ),
        Effect::LoadMetadataDraft(symbol) => Some(RequestView::LoadMetadataDraft("PRINT "@ + symbol@ + ";"@)),
        Effect::SaveMetadata(draft) => match (draft.symbol, draft.target) {
            (Some(symbol), Some(target)) => Some(
                RequestView::EditMetadata {
                    source: "METADATA "@ + symbol@ + " DESCRIPTION "@ + quoted(draft.text@) + ";"@,
                    target,
                    symbol: symbol@,
                },
            ),
            _ => None,
        },
        Effect::Delete(symbol) => Some(RequestView::Eval("DELETE "@ + symbol@ + ";"@)),
        Effect::LoadPreview { symbol, tab } => Some(
            RequestView::Eval(
                match tab {
                    PreviewTab::Xml | PreviewTab::Content => "PRINT "@ + symbol@ + "; OUTPUT "@ + symbol@ + ";"@,
                    _ => "PRINT "@ + symbol@ + ";"@,
                },
            ),
        ),
        Effect::CopyCanonicalXml(symbol) => Some(RequestView::Eval("OUTPUT "@ + symbol@ + ";"@)),
        Effect::CheckExternalChanges => None,
        Effect::Exit => Some(RequestView::Exit),
    }
}

/// The view of an optional request.
pub open spec fn request_view(r: Option<RuntimeRequest>) -> Option<RequestView> {
    match r {
        Some(q) => Some(q@),
        None => None,
    }
}

/// Maps an effect to the DSL request that carries it out; checking for outside changes needs
/// no request.
pub fn runtime_request(effect: Effect, _selected: Option<&str>) -> (r: Option<RuntimeRequest>)
    ensures
        request_view(r) == request_for(effect),
{
    match effect {
        Effect::Execute(source) => Some(RuntimeRequest::Eval(source)),
        Effect::Search(query) => {
            let q = quote(query.as_str());
            Some(RuntimeRequest::Eval(framed("SEARCH ", q.as_str(), ";")))
        },
        Effect::SaveFragment(draft) => {
            let source = match &draft.symbol {
                Some(symbol) => Some(framed("FRAGMENT ", symbol.as_str(), ";")),
                None => None,
            };
            match source {
                Some(source) => Some(RuntimeRequest::EditFragment { source, draft }),
                None => None,
            }
        },
        Effect::LoadFragmentDraft(symbol) => {
            let mut source = framed("PRINT ", symbol.as_str(), "; OUTPUT ");
            source.push_str(symbol.as_str());
            source.push_str(";");
            Some(RuntimeRequest::LoadFragmentDraft { source, symbol })
        },
        Effect::LoadMetadataDraft(symbol) => Some(
            RuntimeRequest::LoadMetadataDraft(framed("PRINT ", symbol.as_str(), ";")),
        ),
        Effect::SaveMetadata(draft) => match (draft.symbol, draft.target) {
            (Some(symbol), Some(target)) => {
                let mut source = framed("METADATA ", symbol.as_str(), " DESCRIPTION ");
                let q = quote(draft.text.as_str());
                source.push_str(q.as_str());
                source.push_str(";");
                Some(RuntimeRequest::EditMetadata { source, target, symbol })
            },
            _ => None,
        },
        Effect::Delete(symbol) => Some(RuntimeRequest::Eval(framed("DELETE ", symbol.as_str(), ";"))),
        Effect::LoadPreview { symbol, tab } => {
            let source = match tab {
                PreviewTab::Xml | PreviewTab::Content => {
                    let mut s = framed("PRINT ", symbol.as_str(), "; OUTPUT ");
                    s.push_str(symbol.as_str());
                    s.push_str(";");
                    s
                },
                _ => framed("PRINT ", symbol.as_str(), ";"),
            };
            Some(RuntimeRequest::Eval(source))
        },
        Effect::CopyCanonicalXml(symbol) => Some(
            RuntimeRequest::Eval(framed("OUTPUT ", symbol.as_str(), ";")),
        ),
        Effect::CheckExternalChanges => None,
        Effect::Exit => Some(RuntimeRequest::Exit),
    }
}

/// Whether a script starts, after leading whitespace, with a read-only statement keyword
/// (`SEARCH `, `PRINT ` or `OUTPUT `).
pub open spec fn read_only_script(source: Seq<char>) -> bool {
    let t = crate::repl::trim_start(source);
    ||| (t.len() >= 7 && t.take(7) == "SEARCH "@)
    ||| (t.len() >= 6 && t.take(6) == "PRINT "@)
    ||| (t.len() >= 7 && t.take(7) == "OUTPUT "@)
}

/// Whether carrying out a request may change the catalog, so that the list is read again
/// after it succeeds: every edit, and every script that is not a read-only statement.
pub open spec fn changes_catalog(request: RuntimeRequest) -> bool {
    match request {
        RuntimeRequest::EditFragment { .. } | RuntimeRequest::EditMetadata { .. } => true,
        RuntimeRequest::Eval(source) => !read_only_script(source@),
        _ => false,
    }
}

/// Whether the characters from `at` on start with `word`.
fn starts_with_at(cs: &Vec<char>, at: usize, word: &str) -> (b: bool)
    requires
        at <= cs@.len(),
    ensures
        b == (cs@.skip(at as int).len() >= word@.len() && cs@.skip(at as int).take(word@.len() as int) == word@),
{
    let w = crate::application::search::chars_of(word);
    if cs.len() - at < w.len() {
        return false;
    }
    let mut k: usize = 0;
    while k < w.len()
        invariant
            at + w@.len() <= cs@.len(),
            cs@.len() <= usize::MAX,
            0 <= k <= w@.len(),
            w@ == word@,
            forall|q: int| 0 <= q < k ==> cs@[at + q] == w@[q],
        decreases w@.len() - k,
    {
        if cs[at + k] != w[k] {
            proof {
                assert(cs@.skip(at as int).take(w@.len() as int)[k as int] == cs@[at + k]);
            }
            return false;
        }
        k = k + 1;
    }
    proof {
        assert(cs@.skip(at as int).take(w@.len() as int) =~= w@);
    }
    true
}

/// Whether a request may change the catalog (see `changes_catalog`).
pub fn refreshes_catalog(request: &RuntimeRequest) -> (b: bool)
    ensures
        b == changes_catalog(*request),
{
    match request {
        RuntimeRequest::EditFragment { .. } | RuntimeRequest::EditMetadata { .. } => true,
        RuntimeRequest::Eval(source) => {
            let cs = crate::application::search::chars_of(source.as_str());
            let start = crate::repl::skip_space(&cs, 0);
            proof {
                assert(cs@.skip(0) =~= cs@);
                reveal_strlit("SEARCH ");
                reveal_strlit("PRINT ");
                reveal_strlit("OUTPUT ");
            }
            !(starts_with_at(&cs, start, "SEARCH ") || starts_with_at(&cs, start, "PRINT ") || starts_with_at(
                &cs,
                start,
                "OUTPUT ",
            ))
        },
        _ => false,
    }
}

} // verus!
