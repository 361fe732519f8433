//! Front end of a small programming language: a lexer that turns source text
//! into tokens and a Pratt parser that turns tokens into a syntax tree.
pub mod token;
pub mod lexer;
pub mod ast;
pub mod parser;
