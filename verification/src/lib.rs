//! A front end for a small dependently typed language with quantitative
//! multiplicities: a scanner, a recursive-descent parser, a usage checker,
//! an evaluator and a lowering of terms to LLVM-style instructions.

pub mod multiplicity;
pub mod term;
pub mod cursor;
pub mod text;
pub mod qtt;
pub mod show;
pub mod substitution;
pub mod evaluator;
pub mod chars;
pub mod errors;
pub mod scanner;
pub mod parser;
pub mod grammar;
pub mod expressions;
pub mod types;
pub mod declarations;
pub mod decl_grammar;
pub mod arena;
pub mod logging;
pub mod irbuilder;
pub mod repl;
pub mod compiler;
pub mod driver;
