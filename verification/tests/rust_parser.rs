use ariadne_graph::model::{CanonicalPath, FileSet};
use ariadne_graph::parser::rust_lang::{RustParser, RustResolver};
use ariadne_graph::parser::traits::{ImportKind, ImportResolver, RawExport, RawImport};
use ariadne_graph::syntax::{parse, Grammar};

fn rust_imports(source: &str) -> Vec<RawImport> {
    let tree = parse(Grammar::Rust, source.as_bytes()).unwrap();
    RustParser::with_crate_name(None).extract_imports(&tree)
}

fn rust_exports(source: &str) -> Vec<RawExport> {
    let tree = parse(Grammar::Rust, source.as_bytes()).unwrap();
    RustParser::with_crate_name(None).extract_exports(&tree)
}

#[test]
fn use_crate_grouped() {
    let result = rust_imports("use crate::{auth, utils};");
    assert!(result.len() >= 1, "grouped crate imports should be found: {:?}", result);
    for imp in &result {
        assert!(imp.path.contains("crate"), "path should contain crate: {}", imp.path);
    }
}

#[test]
fn use_self_module() {
    let result = rust_imports("use self::helpers;");
    let _ = result;
}

#[test]
fn use_nested_grouped() {
    let result = rust_imports("use crate::{model::{Node, Edge}};");
    assert!(result.len() >= 2, "nested grouped use should produce at least 2 imports: {:?}", result);
}

#[test]
fn multiple_use_declarations() {
    let source = "\nmod auth;\nmod config;\nuse crate::{auth, config};\n";
    let result = rust_imports(source);
    let mod_decls: Vec<_> = result.iter().filter(|i| i.kind == ImportKind::ModDeclaration).collect();
    assert_eq!(mod_decls.len(), 2);
}

#[test]
fn mod_declaration_import() {
    let result = rust_imports("mod auth;");
    assert_eq!(result.len(), 1);
    assert_eq!(result[0].path, "auth");
    assert_eq!(result[0].kind, ImportKind::ModDeclaration);
}

#[test]
fn inline_mod_not_import() {
    let result = rust_imports("mod inline { fn foo() {} }");
    assert!(result.is_empty());
}

#[test]
fn use_std_skipped() {
    let result = rust_imports("use std::collections::HashMap;");
    assert!(result.is_empty());
}

#[test]
fn use_external_crate_skipped() {
    let result = rust_imports("use serde::Serialize;");
    assert!(result.is_empty());
}

#[test]
fn rust_lang_empty_source_no_imports() {
    let result = rust_imports("");
    assert!(result.is_empty());
}

#[test]
fn pub_function_exported() {
    let result = rust_exports("pub fn my_func() {}");
    assert_eq!(result.len(), 1);
    assert_eq!(result[0].name, "my_func");
    assert!(!result[0].is_re_export);
}

#[test]
fn pub_struct_exported() {
    let result = rust_exports("pub struct MyStruct {}");
    assert_eq!(result.len(), 1);
    assert_eq!(result[0].name, "MyStruct");
}

#[test]
fn pub_enum_exported() {
    let result = rust_exports("pub enum Color { Red, Blue }");
    assert_eq!(result.len(), 1);
    assert_eq!(result[0].name, "Color");
}

#[test]
fn pub_use_re_export() {
    let result = rust_exports("pub use crate::model::Graph;");
    assert_eq!(result.len(), 1);
    assert_eq!(result[0].name, "Graph");
    assert!(result[0].is_re_export);
    assert!(result[0].source.is_some());
}

#[test]
fn private_items_not_exported() {
    let result = rust_exports("fn private_fn() {}\nstruct PrivStruct {}");
    assert!(result.is_empty());
}

#[test]
fn pub_crate_is_exported() {
    let result = rust_exports("pub(crate) fn internal() {}");
    assert_eq!(result.len(), 1);
    assert_eq!(result[0].name, "internal");
}

#[test]
fn use_crate_scoped_imports_resolved() {
    let result = rust_imports("use crate::model::{CanonicalPath, FileSet};");
    assert_eq!(result.len(), 2, "should extract 2 imports: {:?}", result);
    assert_eq!(result[0].path, "crate::model::CanonicalPath");
    assert_eq!(result[1].path, "crate::model::FileSet");
    assert_eq!(result[0].kind, ImportKind::Regular);
}

#[test]
fn use_crate_single_import() {
    let result = rust_imports("use crate::diagnostic::DiagnosticCollector;");
    assert_eq!(result.len(), 1);
    assert_eq!(result[0].path, "crate::diagnostic::DiagnosticCollector");
}

#[test]
fn use_crate_wildcard() {
    let result = rust_imports("use crate::model::*;");
    assert_eq!(result.len(), 1);
    assert!(result[0].path.contains("crate::model"), "path should contain crate::model: {}", result[0].path);
}

#[test]
fn use_super_import() {
    let result = rust_imports("use super::utils::format;");
    assert_eq!(result.len(), 1);
    assert_eq!(result[0].path, "super::utils::format");
}

#[test]
fn rust_own_crate_name_kept() {
    let tree = parse(Grammar::Rust, "use ariadne_graph::model::Graph;".as_bytes()).unwrap();
    let result = RustParser::with_crate_name(Some("ariadne_graph".to_string())).extract_imports(&tree);
    assert_eq!(result.len(), 1);
    assert_eq!(result[0].path, "ariadne_graph::model::Graph");
    assert_eq!(result[0].symbols, vec!["Graph"]);
}

fn files(paths: &[&str]) -> FileSet {
    FileSet::from_paths(paths.iter().map(|p| CanonicalPath::new(p)).collect())
}

fn import(path: &str, kind: ImportKind) -> RawImport {
    RawImport { path: path.to_string(), symbols: vec![], is_type_only: false, kind }
}

#[test]
fn rust_resolver_crate_path_walks_back_to_module() {
    let known = files(&["src/model/mod.rs", "src/main.rs"]);
    let r = RustResolver::new().resolve(
        &import("crate::model::CanonicalPath", ImportKind::Regular),
        &CanonicalPath::new("src/main.rs"),
        &known,
        None,
    );
    assert_eq!(r.map(|p| p.as_str().to_string()), Some("src/model/mod.rs".to_string()));
}

#[test]
fn rust_resolver_mod_declaration_beside_lib() {
    let known = files(&["src/auth.rs", "src/lib.rs", "src/config/mod.rs"]);
    let r = RustResolver::new();
    let from = CanonicalPath::new("src/lib.rs");
    let a = r.resolve(&import("auth", ImportKind::ModDeclaration), &from, &known, None);
    assert_eq!(a.map(|p| p.as_str().to_string()), Some("src/auth.rs".to_string()));
    let c = r.resolve(&import("config", ImportKind::ModDeclaration), &from, &known, None);
    assert_eq!(c.map(|p| p.as_str().to_string()), Some("src/config/mod.rs".to_string()));
}

#[test]
fn rust_resolver_mod_declaration_in_submodule_file() {
    let known = files(&["src/auth/login.rs"]);
    let r = RustResolver::new().resolve(
        &import("login", ImportKind::ModDeclaration),
        &CanonicalPath::new("src/auth.rs"),
        &known,
        None,
    );
    assert_eq!(r.map(|p| p.as_str().to_string()), Some("src/auth/login.rs".to_string()));
}

#[test]
fn rust_resolver_super_and_external() {
    let known = files(&["src/utils.rs", "src/auth/mod.rs"]);
    let r = RustResolver::new();
    let sup = r.resolve(
        &import("super::utils::format", ImportKind::Regular),
        &CanonicalPath::new("src/auth/login.rs"),
        &known,
        None,
    );
    assert_eq!(sup.map(|p| p.as_str().to_string()), Some("src/utils.rs".to_string()));
    let ext = r.resolve(&import("serde::Serialize", ImportKind::Regular), &CanonicalPath::new("src/main.rs"), &known, None);
    assert!(ext.is_none());
}
