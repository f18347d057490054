//! Configuration: schema, diagnostics, validation and layering.

pub mod diagnostic;
pub mod document;
pub mod environment;
pub mod layers;
pub mod loaded;
pub mod migration;
pub mod schema;
pub mod text;
pub mod unknown;
pub mod values;

pub use diagnostic::{ConfigDiagnostic, DiagnosticSeverity};
