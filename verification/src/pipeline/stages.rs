//! The decisions of the build stages, one file at a time: which files are
//! read, what parsing a file gives, and when there is nothing to analyse.
use vstd::prelude::*;

use crate::diagnostic::{FatalError, Warning, WarningCode};
use crate::model::{extension_spec, path_join, path_join_spec, CanonicalPath};
use crate::parser::registry::{
    grammar_spec, language_for_extension, language_spec, outcome_matches, parse_source, str_opt_view, SourceLanguage,
};
use crate::parser::traits::{ParseOutcome, RawExport, RawImport};
use crate::pipeline::read::FileContent;
use crate::pipeline::walk::FileEntry;
use crate::syntax::{parsed_as, parses, SyntaxTree};
use crate::text::{chars_of, string_of};

verus! {

/// What the parse stage keeps of a file.
#[derive(Debug)]
pub struct ParsedFile {
    pub path: CanonicalPath,
    pub imports: Vec<RawImport>,
    pub exports: Vec<RawExport>,
}

/// A file found by the walk is read when some language handles its
/// extension.
pub fn should_read(entry: &FileEntry) -> (r: bool)
    ensures
        r == language_spec(entry.extension@) is Some,
{
    language_for_extension(entry.extension.as_str()).is_some()
}

/// With no file read there is nothing to analyse.
pub fn require_parseable(read_count: usize, root: &str) -> (r: Result<(), FatalError>)
    ensures
        read_count > 0 ==> r is Ok,
        read_count == 0 ==> (r matches Err(FatalError::NoParseableFiles { path }) && path@ == root@),
{
    if read_count == 0 {
        Err(FatalError::NoParseableFiles { path: string_of(&chars_of(root)) })
    } else {
        Ok(())
    }
}

/// `o` is what [`parse_source`] gives for `source` in language `lang` with
/// extension `ext`, for the crate named `crate_name`.
pub open spec fn source_outcome(lang: SourceLanguage, ext: Seq<char>, source: Seq<u8>, crate_name: Option<Seq<char>>, o: ParseOutcome) -> bool {
    &&& !parses(grammar_spec(lang, ext), source) ==> o is Failed
    &&& parses(grammar_spec(lang, ext), source) ==> exists|t: SyntaxTree|
        #[trigger] parsed_as(grammar_spec(lang, ext), source, t) && outcome_matches(lang, crate_name, &t, o)
}

/// What the parse stage makes of a file whose parse gave `o`: kept with its
/// imports and exports when clean, kept with `W007PartialParse` when
/// partial, dropped with `W001ParseFailed` when failed.
pub open spec fn step_result(path: Seq<char>, o: ParseOutcome, r: (Option<ParsedFile>, Option<Warning>)) -> bool {
    match o {
        ParseOutcome::Clean(i, e, _) => r.0 matches Some(p) && p.path@ == path && p.imports@ == i@ && p.exports@
            == e@ && r.1 is None,
        ParseOutcome::Partial(i, e, _) => r.0 matches Some(p) && p.path@ == path && p.imports@ == i@ && p.exports@
            == e@ && (r.1 matches Some(w) && w.code == WarningCode::W007PartialParse && w.path@ == path),
        ParseOutcome::Failed => r.0 is None && (r.1 matches Some(w) && w.code == WarningCode::W001ParseFailed
            && w.path@ == path),
    }
}

/// Parse one read file: nothing for an extension no language handles;
/// otherwise the file kept or dropped, and the warning to report, by how
/// its parse went (see [`step_result`]); Rust imports are read for the
/// crate named `crate_name`, if known.
pub fn parse_step(fc: &FileContent, crate_name: Option<&str>) -> (r: (Option<ParsedFile>, Option<Warning>))
    ensures
        match extension_spec(fc.path@) {
            Some(ext) => match language_spec(ext) {
                Some(lang) => exists|o: ParseOutcome|
                    #[trigger] source_outcome(lang, ext, fc.bytes@, str_opt_view(crate_name), o) && step_result(fc.path@, o, r),
                None => r.0 is None && r.1 is None,
            },
            None => r.0 is None && r.1 is None,
        },
{
    let ext = match fc.path.extension() {
        Some(e) => e,
        None => return (None, None),
    };
    let ext_s = string_of(&ext);
    let lang = match language_for_extension(ext_s.as_str()) {
        Some(l) => l,
        None => return (None, None),
    };
    let o = parse_source(lang, ext_s.as_str(), fc.bytes.as_slice(), crate_name);
    let ghost og = o;
    let r = match o {
        ParseOutcome::Clean(imports, exports, _) => (Some(ParsedFile { path: fc.path.duplicate(), imports, exports }), None),
        ParseOutcome::Partial(imports, exports, _) => {
            let w = Warning {
                code: WarningCode::W007PartialParse,
                path: fc.path.duplicate(),
                message: string_of(&chars_of("partial parse: some syntax errors")),
                detail: None,
            };
            (Some(ParsedFile { path: fc.path.duplicate(), imports, exports }), Some(w))
        },
        ParseOutcome::Failed => {
            let w = Warning {
                code: WarningCode::W001ParseFailed,
                path: fc.path.duplicate(),
                message: string_of(&chars_of("parse failed: too many errors")),
                detail: None,
            };
            (None, Some(w))
        },
    };
    assert(source_outcome(lang, ext_s@, fc.bytes@, str_opt_view(crate_name), og) && step_result(fc.path@, og, r));
    r
}

/// Where the graph files are written: `output_dir` when given, else
/// `.ariadne/graph` under the project root.
pub fn output_dir_for(root: &str, output_dir: Option<&str>) -> (r: String)
    ensures
        match output_dir {
            Some(d) => r@ == d@,
            None => r@ == path_join_spec(path_join_spec(root@, ".ariadne"@), "graph"@),
        },
{
    match output_dir {
        Some(d) => string_of(&chars_of(d)),
        None => string_of(&path_join(&path_join(&chars_of(root), &chars_of(".ariadne")), &chars_of("graph"))),
    }
}

/// The graph, cluster and statistics files in the output directory `dir`.
pub fn output_files(dir: &str) -> (r: (String, String, String))
    ensures
        r.0@ == path_join_spec(dir@, "graph.json"@),
        r.1@ == path_join_spec(dir@, "clusters.json"@),
        r.2@ == path_join_spec(dir@, "stats.json"@),
{
    let d = chars_of(dir);
    (
        string_of(&path_join(&d, &chars_of("graph.json"))),
        string_of(&path_join(&d, &chars_of("clusters.json"))),
        string_of(&path_join(&d, &chars_of("stats.json"))),
    )
}

/// What an update does once the earlier graph is loaded and compared with
/// the files now read.
#[derive(Clone, Copy, Debug, PartialEq, Eq, Structural)]
pub enum UpdateAction {
    /// Nothing changed: the earlier graph stands.
    KeepGraph,
    /// Build the whole graph again.
    FullBuild,
}

/// An update keeps the earlier graph only when no file changed, was added
/// or was removed; any change, or an earlier graph that could not be used,
/// means a full build.
pub fn update_action(graph_usable: bool, changed: usize, added: usize, removed: usize) -> (r: UpdateAction)
    ensures
        r == UpdateAction::KeepGraph <==> (graph_usable && changed == 0 && added == 0 && removed == 0),
{
    if graph_usable && changed == 0 && added == 0 && removed == 0 {
        UpdateAction::KeepGraph
    } else {
        UpdateAction::FullBuild
    }
}

/// How an update goes on once the earlier graph was read.
#[derive(Debug)]
pub enum UpdateStep {
    /// Compare the files now read with the earlier graph.
    UseGraph,
    /// Build the whole graph, after reporting `warning` if there is one.
    FullBuild { warning: Option<WarningCode> },
    /// Stop with this error.
    Fail(FatalError),
}

/// How an update goes on after reading the earlier graph (`read`: its
/// version, or why it could not be read) and, for a graph of version 1,
/// turning it into a graph (`converted`): with no earlier graph a full
/// build; an unreadable graph, or one that does not convert, a full build
/// after `W011GraphCorrupted`; another version a full build after
/// `W010GraphVersionMismatch`; any other error stops the update.
pub fn update_fallback(read: Result<u32, FatalError>, converted: bool) -> (r: UpdateStep)
    ensures
        match read {
            Err(FatalError::GraphNotFound { .. }) => r == UpdateStep::FullBuild { warning: None },
            Err(FatalError::GraphCorrupted { .. }) => r == UpdateStep::FullBuild {
                warning: Some(WarningCode::W011GraphCorrupted),
            },
            Err(e) => r == UpdateStep::Fail(e),
            Ok(v) => if v != 1 {
                r == UpdateStep::FullBuild { warning: Some(WarningCode::W010GraphVersionMismatch) }
            } else if !converted {
                r == UpdateStep::FullBuild { warning: Some(WarningCode::W011GraphCorrupted) }
            } else {
                r == UpdateStep::UseGraph
            },
        },
{
    match read {
        Err(FatalError::GraphNotFound { .. }) => UpdateStep::FullBuild { warning: None },
        Err(FatalError::GraphCorrupted { .. }) => UpdateStep::FullBuild { warning: Some(WarningCode::W011GraphCorrupted) },
        Err(e) => UpdateStep::Fail(e),
        Ok(v) => {
            if v != 1 {
                UpdateStep::FullBuild { warning: Some(WarningCode::W010GraphVersionMismatch) }
            } else if !converted {
                UpdateStep::FullBuild { warning: Some(WarningCode::W011GraphCorrupted) }
            } else {
                UpdateStep::UseGraph
            }
        },
    }
}

} // verus!
