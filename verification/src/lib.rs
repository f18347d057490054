//! Promptr: a catalog of named prompt fragments and prompts, composed as an acyclic graph
//! and rendered to canonical XML.

pub mod diagnostic;

pub use diagnostic::{
    Diagnostic, DiagnosticCategory, DiagnosticDetails, RelatedDiagnostic, Severity, SourceSpan,
};
pub mod order;
pub mod text;
pub mod domain;
pub mod application;
pub mod editor;
pub mod tui;
pub mod laws;
pub mod store;
pub mod cli;
pub mod repl;
pub mod config;
