//! Front end of a small expression/statement language: a pull-based lexer
//! and a Pratt (operator-precedence) parser that turn source text into an
//! abstract syntax tree, accumulating diagnostics instead of failing.

pub mod ast;
pub mod chars;
pub mod lexer;
pub mod parser;
pub mod number;
pub mod token;
