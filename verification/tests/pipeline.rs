use ariadne_graph::diagnostic::WarningCode;
use ariadne_graph::pipeline::read::{check_size, content_of, skip_reason_to_warning, FileSkipReason};
use ariadne_graph::pipeline::walk::{decimal, finish_walk, FileEntry, WalkConfig, WalkItem};

fn found(path: &str) -> WalkItem {
    WalkItem::Found { path: path.to_string(), is_dir: false }
}

fn paths(r: &ariadne_graph::pipeline::walk::WalkResult) -> Vec<String> {
    r.entries.iter().map(|e| e.path.clone()).collect()
}

#[test]
fn walk_config_default_values() {
    let c = WalkConfig::default();
    assert_eq!(c.max_files, 50_000);
    assert_eq!(c.max_file_size, 1_048_576);
    assert_eq!(c.exclude_dirs, vec![".ariadne".to_string()]);
}

#[test]
fn walk_sorts_by_components_and_skips_dirs_and_extensionless() {
    let items = vec![
        found("/p/src/z.ts"),
        WalkItem::Found { path: "/p/src".to_string(), is_dir: true },
        found("/p/Makefile"),
        found("/p/src-b/a.ts"),
        found("/p/src/a.ts"),
    ];
    let r = finish_walk(&items, "/p", &vec![], 100);
    assert_eq!(paths(&r), vec!["/p/src/a.ts", "/p/src/z.ts", "/p/src-b/a.ts"]);
    assert_eq!(r.entries[0].extension, "ts");
    assert!(r.warnings.is_empty());
}

#[test]
fn walk_manual_exclusion_and_errors() {
    let items = vec![
        WalkItem::Failed { message: "permission denied".to_string() },
        found("/p/.ariadne/graph/graph.json"),
        found("/p/lib/x.rs"),
    ];
    let r = finish_walk(&items, "/p", &vec![".ariadne".to_string()], 100);
    assert_eq!(paths(&r), vec!["/p/lib/x.rs"]);
    assert_eq!(r.warnings.len(), 1);
    assert_eq!(r.warnings[0].code, WarningCode::W002ReadFailed);
}

#[test]
fn walk_stops_at_file_limit() {
    let items = vec![found("/p/c.ts"), found("/p/b.ts"), found("/p/a.ts"), WalkItem::Failed { message: "late".to_string() }];
    let r = finish_walk(&items, "/p", &vec![], 2);
    assert_eq!(paths(&r), vec!["/p/b.ts", "/p/c.ts"]);
    assert_eq!(r.warnings.len(), 1);
    assert_eq!(r.warnings[0].code, WarningCode::W005MaxFilesReached);
    assert_eq!(r.warnings[0].message, "file limit reached (2), graph may be partial");
}

#[test]
fn decimal_digits() {
    assert_eq!(decimal(0).into_iter().collect::<String>(), "0");
    assert_eq!(decimal(1_048_576).into_iter().collect::<String>(), "1048576");
}

#[test]
fn read_checks_size_binary_and_encoding() {
    let entry = FileEntry { path: "/p/src/a.ts".to_string(), extension: "ts".to_string() };
    assert!(check_size(&entry, 10, 10).is_none());
    assert!(matches!(check_size(&entry, 11, 10), Some(FileSkipReason::TooLarge { size: 11, .. })));
    assert!(matches!(content_of(&entry, "/p", vec![b'a', 0, b'b']), Err(FileSkipReason::BinaryFile { .. })));
    assert!(matches!(content_of(&entry, "/p", vec![0xff, 0xfe]), Err(FileSkipReason::EncodingError { .. })));
    let c = content_of(&entry, "/p", b"line1\nline2\n".to_vec()).unwrap();
    assert_eq!(c.path.as_str(), "src/a.ts");
    assert_eq!(c.lines, 2);
}

#[test]
fn binary_check_looks_at_first_8k_only() {
    let entry = FileEntry { path: "/p/big.txt".to_string(), extension: "txt".to_string() };
    let mut bytes = vec![b'a'; 9000];
    bytes[8500] = 0;
    assert!(content_of(&entry, "/p", bytes).is_ok());
}

#[test]
fn skip_reasons_become_warnings() {
    let w = skip_reason_to_warning(&FileSkipReason::TooLarge { path: "a/b.ts".to_string(), size: 2048 });
    assert_eq!(w.code, WarningCode::W003FileTooLarge);
    assert_eq!(w.message, "file too large: 2048 bytes");
    let w = skip_reason_to_warning(&FileSkipReason::ReadError { path: "x".to_string(), reason: "gone".to_string() });
    assert_eq!(w.code, WarningCode::W002ReadFailed);
    assert_eq!(w.message, "cannot read: gone");
    assert_eq!(skip_reason_to_warning(&FileSkipReason::BinaryFile { path: "x".to_string() }).code, WarningCode::W004BinaryFile);
    assert_eq!(skip_reason_to_warning(&FileSkipReason::EncodingError { path: "x".to_string() }).code, WarningCode::W009EncodingError);
}
