//! Configuration diagnostics.

use vstd::prelude::*;

verus! {

/// Severity of a configuration diagnostic.
#[derive(Debug, Clone, Copy, PartialEq, Eq)]
pub enum DiagnosticSeverity {
    /// Configuration cannot be used.
    Error,
    /// Configuration is usable.
    Warning,
}

/// Structured configuration diagnostic.
#[derive(Debug, Clone, PartialEq, Eq)]
pub struct ConfigDiagnostic {
    /// Stable code.
    pub code: &'static str,
    /// Severity.
    pub severity: DiagnosticSeverity,
    /// Explanation.
    pub message: String,
    /// Configuration key.
    pub key: Option<String>,
    /// Source.
    pub source: Option<String>,
    /// Suggestion.
    pub suggestion: Option<String>,
}

/// The view of an optional text.
pub open spec fn text_of(o: Option<String>) -> Option<Seq<char>> {
    match o {
        Some(s) => Some(s@),
        None => None,
    }
}

/// `d` has this code, severity and message, and nothing else yet.
pub open spec fn bare(d: ConfigDiagnostic, code: Seq<char>, severity: DiagnosticSeverity, message: Seq<char>) -> bool {
    &&& d.code@ == code
    &&& d.severity == severity
    &&& d.message@ == message
    &&& d.key is None
    &&& d.source is None
    &&& d.suggestion is None
}

/// The text of a diagnostic: code, message and, in parentheses, the suggestion.
pub open spec fn diagnostic_text(d: ConfigDiagnostic) -> Seq<char> {
    d.code@ + ": "@ + d.message@ + match d.suggestion {
        Some(s) => " ("@ + s@ + ")"@,
        None => Seq::empty(),
    }
}

impl ConfigDiagnostic {
    /// An error diagnostic.
    pub fn error(code: &'static str, message: &str) -> (d: Self)
        ensures
            bare(d, code@, DiagnosticSeverity::Error, message@),
    {
        ConfigDiagnostic {
            code,
            severity: DiagnosticSeverity::Error,
            message: message.to_owned(),
            key: None,
            source: None,
            suggestion: None,
        }
    }

    /// A warning diagnostic.
    pub fn warning(code: &'static str, message: &str) -> (d: Self)
        ensures
            bare(d, code@, DiagnosticSeverity::Warning, message@),
    {
        ConfigDiagnostic {
            code,
            severity: DiagnosticSeverity::Warning,
            message: message.to_owned(),
            key: None,
            source: None,
            suggestion: None,
        }
    }

    /// Names the configuration key.
    pub fn with_key(self, key: &str) -> (d: Self)
        ensures
            d.code == self.code && d.severity == self.severity && d.message@ == self.message@,
            text_of(d.key) == Some(key@),
            text_of(d.source) == text_of(self.source),
            text_of(d.suggestion) == text_of(self.suggestion),
    {
        let mut d = self;
        d.key = Some(key.to_owned());
        d
    }

    /// Names the source.
    pub fn with_source(self, source: &str) -> (d: Self)
        ensures
            d.code == self.code && d.severity == self.severity && d.message@ == self.message@,
            text_of(d.key) == text_of(self.key),
            text_of(d.source) == Some(source@),
            text_of(d.suggestion) == text_of(self.suggestion),
    {
        let mut d = self;
        d.source = Some(source.to_owned());
        d
    }

    /// Adds a suggestion.
    pub fn with_suggestion(self, suggestion: &str) -> (d: Self)
        ensures
            d.code == self.code && d.severity == self.severity && d.message@ == self.message@,
            text_of(d.key) == text_of(self.key),
            text_of(d.source) == text_of(self.source),
            text_of(d.suggestion) == Some(suggestion@),
    {
        let mut d = self;
        d.suggestion = Some(suggestion.to_owned());
        d
    }

    /// The text of the diagnostic: code, message and, in parentheses, the suggestion.
    pub fn text(&self) -> (s: String)
        ensures
            s@ == diagnostic_text(*self),
    {
        let mut out = String::new();
        out.push_str(self.code);
        out.push_str(": ");
        out.push_str(self.message.as_str());
        match &self.suggestion {
            Some(s) => {
                out.push_str(" (");
                out.push_str(s.as_str());
                out.push_str(")");
            },
            None => {},
        }
        proof {
            assert(out@ =~= diagnostic_text(*self));
        }
        out
    }
}

} // verus!
