use ariadne_graph::parser::registry::{language_for_extension, parse_source, reparse_imports, supported_extensions, SourceLanguage};
use ariadne_graph::parser::traits::ParseOutcome;

#[test]
fn supported_extensions_returns_expected_set() {
    let exts = supported_extensions();
    assert!(!exts.is_empty(), "supported_extensions should not be empty");
    let expected = &["rs", "ts", "tsx", "js", "jsx", "py", "go", "json", "yaml", "yml"];
    for &ext in expected {
        assert!(exts.iter().any(|e| e == ext), "supported_extensions should include '{}', got: {:?}", ext, exts);
    }
    let mut sorted = exts.clone();
    sorted.sort();
    assert_eq!(exts, sorted, "supported_extensions should return sorted list");
}

#[test]
fn extensions_map_to_languages() {
    assert_eq!(language_for_extension("tsx"), Some(SourceLanguage::TypeScript));
    assert_eq!(language_for_extension("pyi"), Some(SourceLanguage::Python));
    assert_eq!(language_for_extension("razor"), Some(SourceLanguage::CSharp));
    assert_eq!(language_for_extension("yml"), Some(SourceLanguage::Yaml));
    assert_eq!(language_for_extension("txt"), None);
}

#[test]
fn clean_typescript_source_gives_its_imports() {
    let src = b"import { a } from './a';\nexport const b = a;\n";
    match parse_source(SourceLanguage::TypeScript, "ts", src, None) {
        ParseOutcome::Clean(imports, exports, _) => {
            assert_eq!(imports.len(), 1);
            assert_eq!(imports[0].path, "./a");
            assert!(!exports.is_empty());
        }
        other => panic!("expected a clean parse, got {:?}", other),
    }
}

#[test]
fn source_of_errors_fails() {
    assert!(matches!(parse_source(SourceLanguage::TypeScript, "ts", b")))", None), ParseOutcome::Failed));
}

#[test]
fn reparse_imports_reads_imports_even_with_errors() {
    let imports = reparse_imports(SourceLanguage::Python, "py", b"import os\nimport json\n", None).unwrap();
    assert_eq!(imports.len(), 2);
    assert!(reparse_imports(SourceLanguage::Json, "json", b"{}", None).unwrap().is_empty());
}

#[test]
fn rust_imports_of_the_own_crate_are_kept_when_its_name_is_known() {
    let src = b"use ariadne_graph::model::Node;\nuse serde::Serialize;\n";
    let with_name = reparse_imports(SourceLanguage::Rust, "rs", src, Some("ariadne_graph")).unwrap();
    assert_eq!(with_name.len(), 1);
    assert!(with_name[0].path.starts_with("ariadne_graph"));
    let without = reparse_imports(SourceLanguage::Rust, "rs", src, None).unwrap();
    assert!(without.is_empty());
    match parse_source(SourceLanguage::Rust, "rs", src, Some("ariadne_graph")) {
        ParseOutcome::Clean(imports, _, _) => assert_eq!(imports.len(), 1),
        other => panic!("expected a clean parse, got {:?}", other),
    }
}
