//! A verified core for the Moonlane interpreter: resolved types, the
//! Hindley–Milner inference engine, the type checker's local rules (type
//! conversions, registries, patterns, the rules of single expression and
//! statement forms, the first pass over expressions, statements, blocks and
//! declarations, the second pass that builds the typed tree, match
//! exhaustiveness, module-level checks and the
//! module-by-module checking of a graph), name resolution, the decisions of
//! module loading, evaluation steps on plain values (scalar operations, the
//! pure built-in functions, indexing, loop control, the rendering of whole
//! values, the run-time
//! environment) and error values.

pub mod types;
pub mod text;
pub mod typeinference;
pub mod ast;
pub mod error;
pub mod strmap;
pub mod pathmap;
pub mod module_loader;
pub mod name_resolver;
pub mod typed_ast;
pub mod evaluator;
pub mod display;
pub mod laws;
pub mod typechecker;
pub mod parser;
pub mod syntax;
