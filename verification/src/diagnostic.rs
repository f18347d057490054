//! Stable structured diagnostics shared by every host.

use vstd::prelude::*;

verus! {

/// Half-open byte range in source text.
#[derive(Clone, Copy, Debug, Default, PartialEq, Eq)]
pub struct SourceSpan {
    /// Starting UTF-8 byte offset.
    pub start: usize,
    /// UTF-8 byte length of the range.
    pub length: usize,
}

impl SourceSpan {
    /// Builds a span from a start and an exclusive end; an end before the start gives an
    /// empty span.
    pub fn new(start: usize, end: usize) -> (span: Self)
        ensures
            span.start == start,
            span.length == if end >= start { end - start } else { 0 },
    {
        SourceSpan { start, length: end.saturating_sub(start) }
    }
}

/// Diagnostic severity.
#[derive(Clone, Copy, Debug, PartialEq, Eq)]
pub enum Severity {
    /// Informational message.
    Info,
    /// Non-blocking warning.
    Warning,
    /// Operation-blocking error.
    Error,
}

/// Diagnostic category.
#[derive(Clone, Copy, Debug, PartialEq, Eq)]
pub enum DiagnosticCategory {
    /// Syntax problem.
    Syntax,
    /// Domain invariant problem.
    Domain,
    /// Referential-integrity problem.
    ReferentialIntegrity,
    /// Invocation-capability mismatch.
    Capability,
    /// Concurrent-revision conflict.
    Conflict,
    /// Persistence problem.
    Storage,
    /// Configuration problem.
    Configuration,
    /// Unsupported format version.
    Compatibility,
    /// External editor or input-provider problem.
    External,
    /// Internal consistency problem.
    Internal,
}

/// Symbol or path related to a diagnostic.
#[derive(Clone, Debug, PartialEq, Eq)]
pub struct RelatedDiagnostic {
    /// Related symbol, when available.
    pub symbol: Option<String>,
    /// Related path, when available.
    pub path: Option<Vec<String>>,
    /// Occurrence count, when available.
    pub occurrences: Option<u64>,
    /// Explanatory label.
    pub message: String,
}

/// Location, relation, and cause details of a diagnostic.
#[derive(Clone, Debug, PartialEq, Eq)]
pub struct DiagnosticDetails {
    /// Primary source span.
    pub span: Option<SourceSpan>,
    /// Input source name.
    pub source: Option<String>,
    /// Related entities.
    pub related: Vec<RelatedDiagnostic>,
    /// Actionable hints.
    pub hints: Vec<String>,
    /// Non-contractual underlying cause chain.
    pub causes: Vec<String>,
}

/// Structured diagnostic shared by all hosts.
#[derive(Clone, Debug, PartialEq, Eq)]
pub struct Diagnostic {
    /// Stable diagnostic code.
    pub code: String,
    /// Diagnostic category.
    pub category: DiagnosticCategory,
    /// Severity.
    pub severity: Severity,
    /// User-facing explanation.
    pub message: String,
    /// Less frequent details, boxed to keep the error branch of a `Result` small.
    pub details: Box<DiagnosticDetails>,
}

/// `d` is an error with the given code, category and message, and no details.
pub open spec fn plain_error(
    d: Diagnostic,
    code: Seq<char>,
    category: DiagnosticCategory,
    message: Seq<char>,
) -> bool {
    &&& d.code@ == code
    &&& d.category == category
    &&& d.severity == Severity::Error
    &&& d.message@ == message
    &&& d.details.span.is_none()
    &&& d.details.source.is_none()
    &&& d.details.related@.len() == 0
    &&& d.details.hints@.len() == 0
    &&& d.details.causes@.len() == 0
}

impl Diagnostic {
    /// Builds an error diagnostic with empty details.
    pub fn error(code: &str, category: DiagnosticCategory, message: &str) -> (d: Self)
        ensures
            d.code@ == code@,
            d.category == category,
            d.severity == Severity::Error,
            d.message@ == message@,
            d.details.span.is_none(),
            d.details.source.is_none(),
            d.details.related@.len() == 0,
            d.details.hints@.len() == 0,
            d.details.causes@.len() == 0,
    {
        Diagnostic {
            code: code.to_owned(),
            category,
            severity: Severity::Error,
            message: message.to_owned(),
            details: Box::new(
                DiagnosticDetails {
                    span: None,
                    source: None,
                    related: Vec::new(),
                    hints: Vec::new(),
                    causes: Vec::new(),
                },
            ),
        }
    }

    /// Attaches a source span, replacing any previous one.
    pub fn with_span(self, span: SourceSpan) -> (d: Self)
        ensures
            d.code == self.code,
            d.category == self.category,
            d.severity == self.severity,
            d.message == self.message,
            d.details.span == Some(span),
            d.details.source == self.details.source,
            d.details.related == self.details.related,
            d.details.hints == self.details.hints,
            d.details.causes == self.details.causes,
    {
        let mut d = self;
        d.details.span = Some(span);
        d
    }

    /// Appends an actionable hint.
    pub fn with_hint(self, hint: &str) -> (d: Self)
        ensures
            d.code == self.code,
            d.category == self.category,
            d.severity == self.severity,
            d.message == self.message,
            d.details.span == self.details.span,
            d.details.source == self.details.source,
            d.details.related == self.details.related,
            d.details.hints@.len() == self.details.hints@.len() + 1,
            forall|i: int| 0 <= i < self.details.hints@.len() ==> d.details.hints@[i] == self.details.hints@[i],
            d.details.hints@.last()@ == hint@,
            d.details.causes == self.details.causes,
    {
        let mut d = self;
        d.details.hints.push(hint.to_owned());
        d
    }

    /// Appends an underlying cause.
    pub fn with_cause(self, cause: &str) -> (d: Self)
        ensures
            d.code == self.code,
            d.category == self.category,
            d.severity == self.severity,
            d.message == self.message,
            d.details.span == self.details.span,
            d.details.source == self.details.source,
            d.details.related == self.details.related,
            d.details.hints == self.details.hints,
            d.details.causes@.len() == self.details.causes@.len() + 1,
            forall|i: int| 0 <= i < self.details.causes@.len() ==> d.details.causes@[i] == self.details.causes@[i],
            d.details.causes@.last()@ == cause@,
    {
        let mut d = self;
        d.details.causes.push(cause.to_owned());
        d
    }
}

} // verus!
