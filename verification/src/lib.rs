//! Tests whose result is statically known, revealed types and call edges of Python code.
//!
//! A type checker provides the facts ([`types`], [`syntax`]); the modules of this library
//! draw the conclusions. A check that needs a type which only the type checker can build
//! stops with a [`types::Query`]; once the answer is recorded, it is asked again.

pub mod args;
pub mod batch;
pub mod callee;
pub mod checker;
pub mod config;
pub mod diagnostics;
pub mod display;
pub mod display_laws;
pub mod edges;
pub mod facts;
pub mod inferences;
pub mod inferred_return;
pub mod inputs;
pub mod laws;
pub mod operations;
pub mod outputs;
pub mod passes;
pub mod protocol;
pub mod queries;
pub mod reports;
pub mod reveals;
pub mod serving;
pub mod session;
pub mod span;
pub mod syntax;
pub mod text;
pub mod tree;
pub mod types;
pub mod unnecessary;
