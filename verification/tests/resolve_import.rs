use ariadne_graph::diagnostic::DiagnosticCollector;
use ariadne_graph::model::{CanonicalPath, FileSet};
use ariadne_graph::parser::traits::{ImportKind, RawImport};
use ariadne_graph::pipeline::resolve::{find_case_insensitive, resolve_import};

fn import(path: &str) -> RawImport {
    RawImport { path: path.to_string(), symbols: Vec::new(), is_type_only: false, kind: ImportKind::Regular }
}

fn files(paths: &[&str]) -> FileSet {
    FileSet::from_paths(paths.iter().map(|p| CanonicalPath::new(p)).collect())
}

#[test]
fn resolved_target_is_kept() {
    let mut diag = DiagnosticCollector::new();
    let known = files(&["src/a.ts", "src/b.ts"]);
    let r = resolve_import(Some(CanonicalPath::new("src/b.ts")), &import("./b"), &CanonicalPath::new("src/a.ts"), &known, false, &mut diag);
    assert_eq!(r.unwrap().as_str(), "src/b.ts");
    assert_eq!(diag.drain().unresolved_imports, 0);
}

#[test]
fn self_import_is_dropped_without_counting() {
    let mut diag = DiagnosticCollector::new();
    let known = files(&["src/a.ts"]);
    let r = resolve_import(Some(CanonicalPath::new("src/a.ts")), &import("./a"), &CanonicalPath::new("src/a.ts"), &known, false, &mut diag);
    assert!(r.is_none());
    assert_eq!(diag.drain().unresolved_imports, 0);
}

#[test]
fn unresolved_import_is_counted() {
    let mut diag = DiagnosticCollector::new();
    let known = files(&["src/a.ts"]);
    let r = resolve_import(None, &import("src/missing.ts"), &CanonicalPath::new("src/a.ts"), &known, true, &mut diag);
    assert!(r.is_none());
    assert_eq!(diag.drain().unresolved_imports, 1);
}

#[test]
fn case_insensitive_fallback_finds_file() {
    let mut diag = DiagnosticCollector::new();
    let known = files(&["src/Utils.ts", "src/a.ts"]);
    let r = resolve_import(None, &import("src/utils.ts"), &CanonicalPath::new("src/a.ts"), &known, true, &mut diag);
    assert_eq!(r.unwrap().as_str(), "src/Utils.ts");
    assert_eq!(diag.drain().unresolved_imports, 0);
    let mut diag2 = DiagnosticCollector::new();
    let r2 = resolve_import(None, &import("src/utils.ts"), &CanonicalPath::new("src/a.ts"), &known, false, &mut diag2);
    assert!(r2.is_none());
    assert_eq!(diag2.drain().unresolved_imports, 1);
}

#[test]
fn find_case_insensitive_takes_first_match() {
    let known = files(&["A.md", "a.md"]);
    let r = find_case_insensitive(&CanonicalPath::new("a.MD"), &known);
    assert_eq!(r.unwrap().as_str(), "A.md");
}
