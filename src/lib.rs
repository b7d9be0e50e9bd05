//! An interpreter for a small scripting language: lexing with byte spans,
//! error-recovering parsing, tree-walking execution and diagnostics.

pub mod ast;
pub mod exec;
pub mod interpreter;
pub mod lexer;
pub mod parser;
pub mod reporting;
pub mod tokens;
