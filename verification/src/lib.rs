//! A graph database library: property graphs, a Gremlin traversal language
//! with its parser and evaluator, and write-ahead-log recovery bookkeeping.
pub mod text;
pub mod sorting;
pub mod types;
pub mod clock;
pub mod error;
pub mod gremlin;
pub mod idmap;
pub mod graph;
pub mod query;
pub mod registry;
pub mod recovery;
pub mod traversal;
pub mod benchmarks;
pub mod metrics;
pub mod optimizer;
pub mod scan;
pub mod server;
pub mod components;
pub mod paths;
pub mod query_engine;
