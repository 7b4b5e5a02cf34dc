//! A small toolkit for hand-built recursive-descent parsers: a pattern-driven
//! tokenizer, a backtracking parser-state engine with composable parsing
//! units, a generic tree representation, and a kind-keyed visitor dispatch
//! engine for tree transformation.

pub mod ast;
pub mod lexer;
pub mod parser;
pub mod text;
pub mod token;
pub mod visitor;
