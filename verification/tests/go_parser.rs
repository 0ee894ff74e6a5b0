use ariadne_graph::model::{CanonicalPath, FileSet};
use ariadne_graph::parser::go::{GoParser, GoResolver};
use ariadne_graph::parser::traits::{ImportKind, ImportResolver, RawImport};
use ariadne_graph::syntax::{parse, Grammar};

fn go_imports(source: &str) -> Vec<RawImport> {
    let tree = parse(Grammar::Go, source.as_bytes()).unwrap();
    GoParser::new().extract_imports(&tree)
}

#[test]
fn go_single_and_grouped_imports() {
    let result = go_imports("package main\n\nimport \"fmt\"\n\nimport (\n\t\"os\"\n\tlog \"github.com/x/log\"\n\t_ \"embed\"\n)\n");
    let paths: Vec<&str> = result.iter().map(|i| i.path.as_str()).collect();
    assert_eq!(paths, vec!["fmt", "os", "github.com/x/log", "embed"]);
    assert!(result[0].symbols.is_empty());
    assert_eq!(result[2].symbols, vec!["log"]);
    assert_eq!(result[3].symbols, vec!["_"]);
}

#[test]
fn go_raw_string_import() {
    let result = go_imports("package main\nimport `net/http`\n");
    assert_eq!(result.len(), 1);
    assert_eq!(result[0].path, "net/http");
}

#[test]
fn go_no_exports() {
    let tree = parse(Grammar::Go, "package main\nfunc Exported() {}\n".as_bytes()).unwrap();
    assert!(GoParser::new().extract_exports(&tree).is_empty());
}

fn files(paths: &[&str]) -> FileSet {
    FileSet::from_paths(paths.iter().map(|p| CanonicalPath::new(p)).collect())
}

#[test]
fn go_resolver_skips_stdlib_and_external() {
    let known = files(&["internal/auth/auth.go"]);
    let from = CanonicalPath::new("main.go");
    let std = RawImport { path: "fmt".to_string(), symbols: vec![], is_type_only: false, kind: ImportKind::Regular };
    assert!(GoResolver.resolve(&std, &from, &known, None).is_none());
    let ext = RawImport { path: "github.com/x/y".to_string(), symbols: vec![], is_type_only: false, kind: ImportKind::Regular };
    assert!(GoResolver.resolve(&ext, &from, &known, None).is_none());
    assert!(GoResolver::is_stdlib("net/http"));
    assert!(GoResolver::is_external("github.com/x/y", None));
    assert!(!GoResolver::is_external("example.com/app/auth", Some("example.com/app")));
}

#[test]
fn go_resolve_within_module() {
    let known = files(&["internal/auth/auth.go", "internal/auth/deep/x.go", "pkg/util.go"]);
    let r = GoResolver::resolve_in_module("example.com/app/internal/auth", Some("example.com/app"), &known);
    assert_eq!(r.map(|p| p.as_str().to_string()), Some("internal/auth/auth.go".to_string()));
    let r2 = GoResolver::resolve_in_module("example.com/app/pkg/util", Some("example.com/app"), &known);
    assert_eq!(r2.map(|p| p.as_str().to_string()), Some("pkg/util.go".to_string()));
    assert!(GoResolver::find_module(&files(&["go.mod"])).is_none());
}
