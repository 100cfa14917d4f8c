//! A small dynamically typed, expression-oriented scripting language:
//! a lexer, a Pratt parser and a tree-walking evaluator with lexical
//! scoping, closures, arrays, maps and a handful of built-in functions.
//!
//! Each stage carries a mathematical description of its behaviour — the
//! spec functions ending in `_s` — and every executable function is proved
//! to return exactly what that description says.
pub mod ast;
pub mod buildin;
pub mod evaluator;
pub mod laws;
pub mod lexer;
pub mod object;
pub mod parser;
pub mod text;
pub mod token;
