//! A verified recursive-descent JSON parser.
//!
//! The parser reads a complete text buffer through an advancing cursor and
//! produces a tagged `JsonValue`, or a positioned `ParseError` that records
//! which grammar productions were attempted.  The grammar itself is stated
//! once as spec functions over `Seq<char>` (module `grammar`); every
//! executable parser is proved to agree with that statement.

pub mod error;
pub mod grammar;
pub mod json;
pub mod laws;
pub mod parser;
