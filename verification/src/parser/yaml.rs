//! YAML files: no imports.
use vstd::prelude::*;
use crate::model::{CanonicalPath, FileSet, WorkspaceInfo};
use crate::parser::traits::{ImportResolver, RawExport, RawImport};
use crate::syntax::SyntaxTree;

verus! {

/// YAML files import nothing, so nothing resolves.
#[derive(Debug)]
pub struct YamlResolver;

impl ImportResolver for YamlResolver {
    fn resolve(
        &self,
        _import: &RawImport,
        _from_file: &CanonicalPath,
        _known_files: &FileSet,
        _workspace: Option<&WorkspaceInfo>,
    ) -> (r: Option<CanonicalPath>)
        ensures
            r is None,
    {
        None
    }
}

/// Parser of YAML files: data, with neither imports nor exports.
#[derive(Debug)]
pub struct YamlParser;

impl YamlParser {
    /// The parser.
    pub fn new() -> YamlParser {
        YamlParser
    }

    /// The language name.
    pub fn language(&self) -> (r: &'static str)
        ensures
            r@ == "yaml"@,
    {
        "yaml"
    }

    /// The file extensions handled.
    pub fn extensions(&self) -> (r: Vec<&'static str>)
        ensures
            r@.len() == 2,
            r@[0]@ == "yaml"@,
            r@[1]@ == "yml"@,
    {
        let mut v: Vec<&'static str> = Vec::new();
        v.push("yaml");
        v.push("yml");
        v
    }

    /// Data files import nothing.
    pub fn extract_imports(&self, t: &SyntaxTree) -> (r: Vec<RawImport>)
        ensures
            r@.len() == 0,
    {
        Vec::new()
    }

    /// Data files export nothing.
    pub fn extract_exports(&self, t: &SyntaxTree) -> (r: Vec<RawExport>)
        ensures
            r@.len() == 0,
    {
        Vec::new()
    }
}

} // verus!
