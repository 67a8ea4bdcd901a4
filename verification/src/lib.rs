//! A verified document-storage core: schemaless records made of dynamically
//! shaped values, an in-memory store over named collections, a composable
//! filter/query engine with well-defined cross-type comparison semantics, and
//! a schema-revision migration resolver with per-step durability.

pub mod assoc;
pub mod compare;
pub mod error;
pub mod evaluator;
pub mod laws;
pub mod migrate;
pub mod page;
pub mod pipeline;
pub mod query;
pub mod sanitizer;
pub mod store;
pub mod text;
pub mod value;
