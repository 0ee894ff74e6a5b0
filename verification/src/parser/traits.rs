//! What the language parsers extract and what the resolvers consume.
use vstd::prelude::*;
use crate::model::{CanonicalPath, FileSet, WorkspaceInfo};

verus! {

/// Discriminant for import origin.
#[derive(Clone, Copy, Debug, PartialEq, Eq, Structural)]
pub enum ImportKind {
    /// Standard import statement.
    Regular,
    /// Rust `mod` declaration: the path is the module name.
    ModDeclaration,
    /// Markdown link: the path is a relative file link.
    Link,
    /// `.csproj` project reference.
    ProjectReference,
}

/// Raw import extracted from a syntax tree (unresolved).
#[derive(Clone, Debug)]
pub struct RawImport {
    pub path: String,
    pub symbols: Vec<String>,
    pub is_type_only: bool,
    pub kind: ImportKind,
}

/// Raw export extracted from a syntax tree.
#[derive(Clone, Debug)]
pub struct RawExport {
    pub name: String,
    pub is_re_export: bool,
    pub source: Option<String>,
}

/// The kind of a symbol definition.
#[derive(Clone, Copy, Debug, PartialEq, Eq, Structural)]
pub enum SymbolKind {
    Function,
    Method,
    Class,
    Struct,
    Interface,
    Type,
    Enum,
    Const,
    Variable,
}

/// Visibility of a symbol definition.
#[derive(Clone, Copy, Debug, PartialEq, Eq, Structural)]
pub enum Visibility {
    Public,
    Private,
    Internal,
}

/// A 1-based inclusive range of lines.
#[derive(Clone, Copy, Debug, PartialEq, Eq, Structural)]
pub struct LineSpan {
    pub start: u32,
    pub end: u32,
}

/// A symbol defined in a file.
#[derive(Clone, Debug)]
pub struct SymbolDef {
    pub name: String,
    pub kind: SymbolKind,
    pub visibility: Visibility,
    pub span: LineSpan,
    pub signature: Option<String>,
    pub parent: Option<String>,
}

/// Result of parsing a source file.
#[derive(Debug)]
pub enum ParseOutcome {
    /// Parsed with no error node among the top-level nodes.
    Clean(Vec<RawImport>, Vec<RawExport>, Vec<SymbolDef>),
    /// Some, but at most half, of the top-level nodes are errors.
    Partial(Vec<RawImport>, Vec<RawExport>, Vec<SymbolDef>),
    /// More than half of the top-level nodes are errors, or no tree was produced.
    Failed,
}

/// The strings of a vector, as character sequences.
pub open spec fn strings_view(v: Seq<String>) -> Seq<Seq<char>> {
    v.map_values(|s: String| s@)
}

/// What a [`RawImport`] holds, as plain values.
pub struct ImportView {
    pub path: Seq<char>,
    pub symbols: Seq<Seq<char>>,
    pub is_type_only: bool,
    pub kind: ImportKind,
}

impl View for RawImport {
    type V = ImportView;

    open spec fn view(&self) -> ImportView {
        ImportView {
            path: self.path@,
            symbols: strings_view(self.symbols@),
            is_type_only: self.is_type_only,
            kind: self.kind,
        }
    }
}

/// What a [`RawExport`] holds, as plain values.
pub struct ExportView {
    pub name: Seq<char>,
    pub is_re_export: bool,
    pub source: Option<Seq<char>>,
}

/// The characters of an optional string.
pub open spec fn opt_view(o: Option<String>) -> Option<Seq<char>> {
    match o {
        Some(s) => Some(s@),
        None => None,
    }
}

impl View for RawExport {
    type V = ExportView;

    open spec fn view(&self) -> ExportView {
        ExportView { name: self.name@, is_re_export: self.is_re_export, source: opt_view(self.source) }
    }
}

/// What a [`SymbolDef`] holds, as plain values.
pub struct SymbolView {
    pub name: Seq<char>,
    pub kind: SymbolKind,
    pub visibility: Visibility,
    pub span: LineSpan,
    pub signature: Option<Seq<char>>,
    pub parent: Option<Seq<char>>,
}

impl View for SymbolDef {
    type V = SymbolView;

    open spec fn view(&self) -> SymbolView {
        SymbolView {
            name: self.name@,
            kind: self.kind,
            visibility: self.visibility,
            span: self.span,
            signature: opt_view(self.signature),
            parent: opt_view(self.parent),
        }
    }
}

/// The views of a sequence of imports.
pub open spec fn imports_view(v: Seq<RawImport>) -> Seq<ImportView> {
    v.map_values(|x: RawImport| x@)
}

/// The views of a sequence of exports.
pub open spec fn exports_view(v: Seq<RawExport>) -> Seq<ExportView> {
    v.map_values(|x: RawExport| x@)
}

/// The views of a sequence of symbols.
pub open spec fn symbols_view(v: Seq<SymbolDef>) -> Seq<SymbolView> {
    v.map_values(|x: SymbolDef| x@)
}

/// Resolves raw import paths to files of the project.
pub trait ImportResolver {
    /// The file that `import`, written in `from_file`, refers to, if it is
    /// one of `known_files`.
    fn resolve(
        &self,
        import: &RawImport,
        from_file: &CanonicalPath,
        known_files: &FileSet,
        workspace: Option<&WorkspaceInfo>,
    ) -> Option<CanonicalPath>;
}

} // verus!
