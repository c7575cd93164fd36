//! Ferric: a small expression language. This crate holds its source-location
//! bookkeeping, its lexer, its parser (which also infers and checks static types),
//! the variable store that the evaluator runs on, and the string logic of the
//! built-in `substr`.

pub mod text;
pub mod loc;
pub mod decimal;
pub mod lexer;
pub mod ast;
pub mod grammar;
pub mod parser;
pub mod env;
pub mod builtin;
