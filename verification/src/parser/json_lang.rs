//! JSON files: no imports.
use vstd::prelude::*;
use crate::model::{CanonicalPath, FileSet, WorkspaceInfo};
use crate::parser::traits::{ImportResolver, RawExport, RawImport};
use crate::syntax::SyntaxTree;

verus! {

/// JSON files import nothing, so nothing resolves.
#[derive(Debug)]
pub struct JsonResolver;

impl ImportResolver for JsonResolver {
    fn resolve(
        &self,
        _import: &RawImport,
        _from_file: &CanonicalPath,
        _known_files: &FileSet,
        _workspace: Option<&WorkspaceInfo>,
    ) -> (r: Option<CanonicalPath>)
        ensures
            r is None,
    {
        None
    }
}

/// Parser of JSON files: data, with neither imports nor exports.
#[derive(Debug)]
pub struct JsonParser;

impl JsonParser {
    /// The parser.
    pub fn new() -> JsonParser {
        JsonParser
    }

    /// The language name.
    pub fn language(&self) -> (r: &'static str)
        ensures
            r@ == "json"@,
    {
        "json"
    }

    /// The file extensions handled.
    pub fn extensions(&self) -> (r: Vec<&'static str>)
        ensures
            r@.len() == 1,
            r@[0]@ == "json"@,
    {
        let mut v: Vec<&'static str> = Vec::new();
        v.push("json");
        v
    }

    /// Data files import nothing.
    pub fn extract_imports(&self, t: &SyntaxTree) -> (r: Vec<RawImport>)
        ensures
            r@.len() == 0,
    {
        Vec::new()
    }

    /// Data files export nothing.
    pub fn extract_exports(&self, t: &SyntaxTree) -> (r: Vec<RawExport>)
        ensures
            r@.len() == 0,
    {
        Vec::new()
    }
}

} // verus!
