//! Layered decision-diagram ("shard") tooling: a text format for systems of
//! diagrams, a builder that turns parsed specifications into validated
//! in-memory diagrams, the inverse text emitter, and a graph-description
//! emitter for visualization.

pub mod model;
pub mod soc;
pub mod builder;
pub mod numtext;
pub mod emit;
pub mod dot;
pub mod parser;
