//! Rendering the tree of a template.

pub mod branches;
pub mod compare;
pub mod condition;
pub mod content;
pub mod context;
pub mod effects;
pub mod errors;
pub mod host;
pub mod inclusion;
pub mod laws;
pub mod leaves;
pub mod outcomes;
pub mod renderer;
pub mod sight;
pub mod tags;
pub mod truth;
pub mod values;
