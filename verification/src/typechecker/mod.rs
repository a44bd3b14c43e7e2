//! The type checker's pieces that stand on the inference engine: type
//! conversions, built-in schemes and the standard prelude, module-level
//! checks, and the module-by-module checking of a graph.

pub mod conversions;
pub mod registry;
pub mod construction;
pub mod inference;
pub mod exports;
pub mod modules;
pub mod matching;
pub mod graph;
pub mod rules;
pub mod walk;
pub mod typing;
