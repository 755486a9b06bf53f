//! A small s-expression language: an exact-decimal number model, a lexer and
//! recursive-descent parser producing a located syntax tree, a runtime value
//! model with closures and native functions, lexically scoped environments,
//! and a tree-walking evaluator whose behaviour is pinned to a mathematical
//! interpreter.

pub mod ast;
pub mod error;
pub mod eval;
pub mod laws;
pub mod number;
pub mod prelude;
pub mod reader;
pub mod roundtrip;
pub mod text;
pub mod value;
