//! A small dynamically typed, indentation-aware scripting language:
//! lexer, recursive-descent parser and tree-walking evaluator.

pub mod ast;
pub mod environment;
pub mod error;
pub mod grammar;
pub mod interpreter;
pub mod laws;
pub mod lexer;
pub mod number;
pub mod parser;
pub mod script;
pub mod semantics;
pub mod text;
pub mod token;
pub mod value;
