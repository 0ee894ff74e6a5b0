//! Source and configuration parsers.
pub mod config;
pub mod csharp;
pub mod go;
pub mod helpers;
pub mod java;
pub mod json_lang;
pub mod markdown;
pub mod python;
pub mod registry;
pub mod rust_lang;
pub mod traits;
pub mod typescript;
pub mod yaml;
