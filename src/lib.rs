//! A small Lisp-like scripting language: a tokenizer and reader that build expression
//! trees, chained environments of bindings, a library of numeric primitives, and a
//! tree-walking evaluator with special forms and lambdas. Every function states its
//! behaviour over a mathematical model (`expr::Datum`, `env::Frame`) and is verified
//! against it; `semantics` holds the model of evaluation and `laws` the properties
//! proved of it.
pub mod builtins;
pub mod config;
pub mod env;
pub mod eval;
pub mod expr;
pub mod laws;
pub mod reader;
pub mod render;
pub mod semantics;
pub mod text;
