//! An in-memory RDF triple store with a SPARQL-style query engine: an
//! operator algebra over solution mappings, a planner from the query AST,
//! condition normalization and analysis, cost-driven join ordering with
//! filter pushdown, dataset statistics, and a materializing evaluator.

use vstd::prelude::*;

pub mod text;
pub mod term;
pub mod database;
pub mod summary;
pub mod ntriples;
pub mod query;
pub mod mapping;
pub mod operation;
pub mod eval;
pub mod condition;
pub mod planner;
pub mod optimize;
pub mod estimate;
pub mod all_plans;
pub mod engine;
pub mod laws;
