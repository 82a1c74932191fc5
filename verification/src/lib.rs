//! A verified parser for wiki-style "infobox" markup blocks.
//!
//! The parser turns a text block of the form `{{Infobox <type> ... }}` into an
//! ordered record of scalar and list fields, or into a diagnostic that carries
//! the kind of failure together with the physical line number and the raw text
//! of the offending line.  The whole pipeline — line-ending normalization,
//! envelope validation, and the two-state field machine — is specified by the
//! spec functions in [`model`], and every executable function is proved to
//! follow that model exactly.

pub mod diag;
pub mod model;
pub mod parser;
pub mod props;
pub mod record;
pub mod text;

pub use diag::Diagnostic;
pub use parser::parse;
pub use record::Wiki;
pub use record::WikiField;
