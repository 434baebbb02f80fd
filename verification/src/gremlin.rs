//! The Gremlin traversal language: steps and traversals, results, execution
//! context, the query-text parser and the evaluator.
pub mod steps;
pub mod parser;
pub mod results;
pub mod context;
pub mod eval;
pub mod semantics;
pub mod engine;
pub mod runner;
pub mod run;
pub mod nested;
pub mod laws;
