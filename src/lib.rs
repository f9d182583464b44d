//! A small expression language: lexer, precedence-climbing parser and a
//! scoped tree-walking evaluator over integers, decimals, booleans, finite
//! sets and functions.
pub mod number;
pub mod token;
pub mod errors;
pub mod ast;
pub mod value;
pub mod object;
pub mod sets;
pub mod ops;
pub mod text;
pub mod lexer;
pub mod grammar;
pub mod parser;
pub mod builtins;
pub mod environment;
pub mod render;
pub mod interpreter;
pub mod laws;
pub mod semantics;
