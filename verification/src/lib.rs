//! Structured error codes and diagnostic aggregation.
//!
//! A program declares families of numbered error codes, records occurrences of
//! them together with a location while it goes on working, and folds all that
//! was recorded into one outcome at the end.

pub mod text;
pub mod loc;
pub mod diagnostic;
pub mod plain;
pub mod codes;
pub mod adapters;

pub use diagnostic::{
    validate_family, validate_uniqueness, Combine, DiagBuffer, Diagnostic, DiagnosticBuffer, ErrorRegistry, Liaise,
};
pub use codes::AbutCode;
pub use loc::{DiagnosticLoc, LineLoc};
