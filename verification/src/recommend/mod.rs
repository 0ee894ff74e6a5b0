//! Recommendations drawn from the dependency graph.
pub mod placement;
pub mod refactor;
pub mod types;
