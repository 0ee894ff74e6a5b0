use ariadne_graph::diagnostic::{FatalError, WarningCode};
use ariadne_graph::model::CanonicalPath;
use ariadne_graph::pipeline::read::FileContent;
use ariadne_graph::pipeline::stages::{
    output_dir_for, output_files, parse_step, require_parseable, should_read, update_action, update_fallback, UpdateAction,
    UpdateStep,
};
use ariadne_graph::pipeline::walk::FileEntry;

fn content(path: &str, text: &str) -> FileContent {
    FileContent { path: CanonicalPath::new(path), bytes: text.as_bytes().to_vec(), lines: 0 }
}

#[test]
fn only_handled_extensions_are_read() {
    assert!(should_read(&FileEntry { path: "/p/a.ts".to_string(), extension: "ts".to_string() }));
    assert!(!should_read(&FileEntry { path: "/p/a.txt".to_string(), extension: "txt".to_string() }));
}

#[test]
fn nothing_read_is_fatal() {
    assert!(require_parseable(3, "/p").is_ok());
    match require_parseable(0, "/p") {
        Err(FatalError::NoParseableFiles { path }) => assert_eq!(path, "/p"),
        other => panic!("expected NoParseableFiles, got {:?}", other),
    }
}

#[test]
fn clean_file_is_kept_without_warning() {
    let (file, warning) = parse_step(&content("src/a.ts", "import x from './b';\n"), None);
    let file = file.expect("kept");
    assert_eq!(file.path.as_str(), "src/a.ts");
    assert_eq!(file.imports.len(), 1);
    assert!(warning.is_none());
}

#[test]
fn failed_file_is_dropped_with_warning() {
    let (file, warning) = parse_step(&content("src/a.ts", ")))"), None);
    assert!(file.is_none());
    let w = warning.expect("warning");
    assert_eq!(w.code, WarningCode::W001ParseFailed);
    assert_eq!(w.path.as_str(), "src/a.ts");
}

#[test]
fn unhandled_extension_is_passed_over() {
    let (file, warning) = parse_step(&content("notes.txt", "hello"), None);
    assert!(file.is_none() && warning.is_none());
}

#[test]
fn default_output_directory_is_under_the_root() {
    assert_eq!(output_dir_for("/p", None), "/p/.ariadne/graph");
    assert_eq!(output_dir_for("/p/", None), "/p/.ariadne/graph");
    assert_eq!(output_dir_for("/p", Some("/out")), "/out");
}

#[test]
fn output_files_are_named_in_the_directory() {
    let (g, c, s) = output_files("out");
    assert_eq!(g, "out/graph.json");
    assert_eq!(c, "out/clusters.json");
    assert_eq!(s, "out/stats.json");
}

#[test]
fn update_keeps_the_graph_only_without_changes() {
    assert_eq!(update_action(true, 0, 0, 0), UpdateAction::KeepGraph);
    assert_eq!(update_action(true, 1, 0, 0), UpdateAction::FullBuild);
    assert_eq!(update_action(true, 0, 2, 0), UpdateAction::FullBuild);
    assert_eq!(update_action(true, 0, 0, 3), UpdateAction::FullBuild);
    assert_eq!(update_action(false, 0, 0, 0), UpdateAction::FullBuild);
}

#[test]
fn update_falls_back_to_a_full_build() {
    assert!(matches!(
        update_fallback(Err(FatalError::GraphNotFound { path: "out".to_string() }), true),
        UpdateStep::FullBuild { warning: None }
    ));
    assert!(matches!(
        update_fallback(Err(FatalError::GraphCorrupted { path: "out".to_string(), reason: "bad".to_string() }), true),
        UpdateStep::FullBuild { warning: Some(WarningCode::W011GraphCorrupted) }
    ));
    assert!(matches!(
        update_fallback(Ok(2), true),
        UpdateStep::FullBuild { warning: Some(WarningCode::W010GraphVersionMismatch) }
    ));
    assert!(matches!(
        update_fallback(Ok(1), false),
        UpdateStep::FullBuild { warning: Some(WarningCode::W011GraphCorrupted) }
    ));
    assert!(matches!(update_fallback(Ok(1), true), UpdateStep::UseGraph));
    match update_fallback(Err(FatalError::NotADirectory { path: "/p".to_string() }), true) {
        UpdateStep::Fail(FatalError::NotADirectory { path }) => assert_eq!(path, "/p"),
        other => panic!("expected the error back, got {:?}", other),
    }
}

#[test]
fn parse_step_keeps_own_crate_imports_for_a_named_crate() {
    let fc = content("src/lib.rs", "use mycrate::model::Node;
");
    let (file, _) = parse_step(&fc, Some("mycrate"));
    assert_eq!(file.unwrap().imports.len(), 1);
    let (file, _) = parse_step(&fc, None);
    assert!(file.unwrap().imports.is_empty());
}
