//! The stages of the analysis: walking the project, reading and parsing
//! its files, and the decisions that turn what was parsed into edges.
pub mod edges;
pub mod read;
pub mod resolve;
pub mod stages;
pub mod walk;
