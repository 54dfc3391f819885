//! An interpreter for Ironcamel, a small strict functional language: a
//! tokenizer, a recursive-descent parser and a tree-walking evaluator, each
//! stated against a mathematical model and proved to meet it.

pub mod builtin;
pub mod expr;
pub mod interpreter;
pub mod parser;
pub mod roundtrip;
pub mod text;
pub mod tokenizer;
