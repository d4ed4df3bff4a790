//! A small parenthesised expression language: a grammar over bytes that
//! yields a syntax tree, and a tree-walking evaluator over a single mutable
//! binding table.

pub mod evaluator;
pub mod laws;
pub mod lexer;
pub mod parser;
pub mod types;
