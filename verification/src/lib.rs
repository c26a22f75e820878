//! A CommonJS module bundler core: static detection of `require("id")`
//! imports from a syntax tree, builtin-shim resolution policy, cycle-safe
//! module graph construction, and deterministic serialization of the graph
//! into a single self-executing bundle.

pub mod ast;
pub mod builtins;
pub mod deps;
pub mod detect;
pub mod graph;
pub mod loader;
pub mod pack;
pub mod text;
pub mod walk;
