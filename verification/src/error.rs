//! The three error kinds of the pipeline, one per stage: a syntax error from
//! the parser (with the 1-based line and column of the first mismatch), a
//! validation error from the AST builder, and a generation error from the
//! code generator.

use vstd::prelude::*;

verus! {

/// Syntax error raised by the parser. `line` and `col` are 1-based and point
/// at the first unrecoverable mismatch; `reason` is a human-readable message.
#[derive(Debug, Clone, PartialEq, Eq)]
pub struct ParseError {
    pub reason: String,
    pub line: usize,
    pub col: usize,
}

/// Error raised by the AST builder when a syntactically valid parse tree
/// carries a construct the builder does not accept (an unknown selector or
/// content keyword, or a tree shape the grammar cannot produce).
#[derive(Debug, Clone, PartialEq, Eq)]
pub struct ValidationError {
    pub reason: String,
}

/// Error raised by the code generator when an identifier expression has no
/// visible binding. The reason names the unresolved identifier.
#[derive(Debug, Clone, PartialEq, Eq)]
pub struct GenerationError {
    pub reason: String,
}

} // verus!
