//! A composable parsing engine: parser values built from primitive matchers
//! (single character, literal string, digit run) and combined with sequencing,
//! alternation, repetition and transformation operators, with position-tracked
//! error reporting.
//!
//! Every parser carries a specification-level denotation (`spec_parse`), and
//! the executable `parse` of every parser is proved to return exactly what the
//! denotation says.

pub mod combinators;
pub mod errors;
pub mod parsers;
pub mod traits;
