//! An embeddable scripting language: a fused lexer and parser that turns
//! source text into an arena-stored syntax tree, and a tree-walking
//! evaluator that runs that tree against a chained, mutable scope model.
//! Shared mutable state lives in reference cells; tasks, files and output
//! reach the outside world only through a host the embedder supplies.

pub mod ast;
pub mod builtins;
pub mod eval;
pub mod incremental;
pub mod parser;
pub mod pstate;
pub mod scan;
pub mod scope;
pub mod semantics;
pub mod store;
pub mod tokenizer;
pub mod value;
