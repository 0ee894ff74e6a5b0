//! Dependency-graph analysis of source trees: configuration discovery,
//! import resolution and placement recommendations.

pub mod diagnostic;
pub mod json;
pub mod model;
pub mod parser;
pub mod pipeline;
pub mod recommend;
pub mod syntax;
pub mod text;
