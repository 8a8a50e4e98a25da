//! A small S-expression language: a lexer with precise position tracking, a
//! single-token-lookahead recursive-descent parser, and a tree-walking
//! evaluator over a stack of lexical scopes seeded with the `debug` built-in.

pub mod ast;
pub mod evaluate;
pub mod isolate;
pub mod lexer;
pub mod parser;
pub mod value;
