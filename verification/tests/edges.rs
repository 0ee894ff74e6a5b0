use ariadne_graph::model::{CanonicalPath, FileSet};
use ariadne_graph::parser::traits::ImportKind;
use ariadne_graph::pipeline::edges::{
    classify_edge_type, infer_test_edges_by_naming, rewrite_crate_import, test_source_for, EdgeType,
};

fn files(paths: &[&str]) -> FileSet {
    FileSet::from_paths(paths.iter().map(|p| CanonicalPath::new(p)).collect())
}

#[test]
fn own_crate_name_is_read_as_crate() {
    assert_eq!(rewrite_crate_import("ariadne_graph::model::Node", Some("ariadne_graph")), "crate::model::Node");
    assert_eq!(rewrite_crate_import("ariadne_graph", Some("ariadne_graph")), "crate");
    assert_eq!(rewrite_crate_import("ariadne_graphx::y", Some("ariadne_graph")), "ariadne_graphx::y");
    assert_eq!(rewrite_crate_import("std::io", Some("ariadne_graph")), "std::io");
    assert_eq!(rewrite_crate_import("ariadne_graph::x", None), "ariadne_graph::x");
}

#[test]
fn edge_kinds_follow_link_test_and_type_rules() {
    assert_eq!(classify_edge_type(true, true, true, ImportKind::Link), EdgeType::References);
    assert_eq!(classify_edge_type(true, true, true, ImportKind::Regular), EdgeType::Tests);
    assert_eq!(classify_edge_type(true, false, true, ImportKind::Regular), EdgeType::TypeImports);
    assert_eq!(classify_edge_type(false, true, false, ImportKind::Regular), EdgeType::Imports);
    assert_eq!(classify_edge_type(false, true, false, ImportKind::ModDeclaration), EdgeType::Imports);
}

#[test]
fn test_files_pair_with_sources_by_name() {
    let fs = files(&[
        "src/foo.ts",
        "src/foo.test.ts",
        "src/bar.spec.tsx",
        "pkg/auth.py",
        "pkg/test_auth.py",
        "a/b_test.go",
        "a/b.go",
        "x.py",
        "test_x.py",
        "src/lone.test.ts",
    ]);
    let src = |p: &str| test_source_for(&CanonicalPath::new(p), &fs).map(|c| c.as_str().to_string());
    assert_eq!(src("src/foo.test.ts"), Some("src/foo.ts".to_string()));
    assert_eq!(src("pkg/test_auth.py"), Some("pkg/auth.py".to_string()));
    assert_eq!(src("a/b_test.go"), Some("a/b.go".to_string()));
    assert_eq!(src("test_x.py"), Some("x.py".to_string()));
    assert_eq!(src("src/lone.test.ts"), None);
    assert_eq!(src("src/bar.spec.tsx"), None);
}

#[test]
fn naming_edges_keep_the_order_of_the_test_files() {
    let fs = files(&["src/foo.ts", "a/b.go", "pkg/auth.py"]);
    let tests: Vec<CanonicalPath> =
        ["pkg/test_auth.py", "src/none.test.ts", "a/b_test.go", "src/foo.spec.ts"].iter().map(|p| CanonicalPath::new(p)).collect();
    let edges: Vec<(String, String)> = infer_test_edges_by_naming(&tests, &fs)
        .iter()
        .map(|(t, s)| (t.as_str().to_string(), s.as_str().to_string()))
        .collect();
    assert_eq!(
        edges,
        vec![
            ("pkg/test_auth.py".to_string(), "pkg/auth.py".to_string()),
            ("a/b_test.go".to_string(), "a/b.go".to_string()),
            ("src/foo.spec.ts".to_string(), "src/foo.ts".to_string()),
        ]
    );
}
