//! Line tokens produced by the lexer.
use crate::span::Span;
use vstd::prelude::*;

verus! {

/// Kind of a line token. A `Line` holds the line's text (leading
/// indentation included, trailing whitespace and line break removed).
#[derive(Clone, Debug, PartialEq, Eq)]
pub enum TokenKind {
    Line(String),
    Blank,
    Eof,
}

/// A line of the source with its span and indentation (leading spaces).
#[derive(Clone, Debug)]
pub struct Token {
    pub kind: TokenKind,
    pub span: Span,
    pub indent: u16,
}

} // verus!
