//! The errors of each stage of the pipeline, and source locations.
use vstd::prelude::*;
use crate::multiplicity::Multiplicity;
use crate::scanner::Token;

verus! {

/// A source location: line, column and length.
#[derive(Debug, Clone, Copy, PartialEq, Eq, Structural)]
pub struct Span {
    pub line: usize,
    pub col: usize,
    pub len: usize,
}

impl Span {
    /// Creates a span.
    pub fn new(line: usize, col: usize, len: usize) -> (r: Self)
        ensures
            r == (Span { line, col, len }),
    {
        Span { line, col, len }
    }
}

/// An error of lexical analysis.
#[derive(Debug, Clone, PartialEq, Eq)]
pub struct LexError {
    pub span: Span,
    pub character: char,
    pub message: String,
}

/// An error of syntactic analysis.
#[derive(Debug, Clone, PartialEq, Eq)]
pub struct ParseError {
    pub span: Span,
    pub token: Token,
    pub expected: Option<String>,
    pub message: String,
}

/// An error of multiplicity and boundary checking.
#[derive(Debug, Clone, PartialEq, Eq)]
pub struct QttError {
    pub span: Span,
    pub variable: String,
    pub declared: Multiplicity,
    pub actual: usize,
    pub context: String,
    pub hint: Option<String>,
}

/// An error of any stage.
#[derive(Debug, Clone, PartialEq, Eq)]
pub enum CompilerError {
    Lex(LexError),
    Parse(ParseError),
    Qtt(QttError),
}

/// A value with the source span it came from.
#[derive(Debug, Clone, PartialEq, Eq)]
pub struct Spanned<T> {
    pub node: T,
    pub span: Span,
}

impl<T> Spanned<T> {
    /// Attaches a span to a value.
    pub fn new(node: T, span: Span) -> (r: Self)
        ensures
            r.node == node,
            r.span == span,
    {
        Spanned { node, span }
    }
}

} // verus!
