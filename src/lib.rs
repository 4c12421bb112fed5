//! A tree-walking interpreter for a small dynamically typed scripting
//! language: scanning, recursive-descent parsing and evaluation over a
//! chain of lexical scopes, each stage verified against a mathematical model.
pub mod ast;
pub mod environment;
pub mod error;
pub mod interpreter;
pub mod lox;
pub mod number;
pub mod parser;
pub mod scanner;
pub mod tokens;
pub mod value;
