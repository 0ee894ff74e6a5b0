use ariadne_graph::parser::python::PythonParser;
use ariadne_graph::parser::traits::{RawExport, RawImport, SymbolKind, Visibility};
use ariadne_graph::syntax::{parse, Grammar};

fn imports(source: &str) -> Vec<RawImport> {
    let tree = parse(Grammar::Python, source.as_bytes()).unwrap();
    PythonParser::new().extract_imports(&tree)
}

fn exports(source: &str) -> Vec<RawExport> {
    let tree = parse(Grammar::Python, source.as_bytes()).unwrap();
    PythonParser::new().extract_exports(&tree)
}

#[test]
fn import_simple_module() {
    let result = imports("import os");
    assert_eq!(result.len(), 1);
    assert_eq!(result[0].path, "os");
    assert!(result[0].symbols.is_empty());
    assert!(!result[0].is_type_only);
}

#[test]
fn import_dotted_module() {
    let result = imports("import os.path");
    assert_eq!(result.len(), 1);
    assert_eq!(result[0].path, "os.path");
}

#[test]
fn from_import_symbols() {
    let result = imports("from os import path, getcwd");
    assert_eq!(result.len(), 1);
    assert_eq!(result[0].path, "os");
    assert_eq!(result[0].symbols, vec!["path", "getcwd"]);
}

#[test]
fn from_relative_import_single_dot() {
    let result = imports("from . import utils");
    assert_eq!(result.len(), 1);
    assert_eq!(result[0].path, ".");
    assert_eq!(result[0].symbols, vec!["utils"]);
}

#[test]
fn from_relative_import_double_dot() {
    let result = imports("from ..pkg import helper");
    assert_eq!(result.len(), 1);
    assert_eq!(result[0].path, "..pkg");
    assert_eq!(result[0].symbols, vec!["helper"]);
}

#[test]
fn from_import_wildcard() {
    let result = imports("from pkg import *");
    assert_eq!(result.len(), 1);
    assert_eq!(result[0].path, "pkg");
    assert_eq!(result[0].symbols, vec!["*"]);
}

#[test]
fn import_aliased() {
    let result = imports("import numpy as np");
    assert_eq!(result.len(), 1);
    assert_eq!(result[0].path, "numpy");
}

#[test]
fn type_checking_imports() {
    let source = "\nfrom typing import TYPE_CHECKING\nif TYPE_CHECKING:\n    import some_module\n    from other import Foo\n";
    let result = imports(source);
    let type_only: Vec<_> = result.iter().filter(|i| i.is_type_only).collect();
    assert_eq!(type_only.len(), 2);
    assert!(type_only.iter().any(|i| i.path == "some_module"));
    assert!(type_only.iter().any(|i| i.path == "other"));
}

#[test]
fn future_import_skipped() {
    let result = imports("from __future__ import annotations");
    assert!(result.is_empty());
}

#[test]
fn python_empty_source_no_imports() {
    let result = imports("");
    assert!(result.is_empty());
}

#[test]
fn malformed_source_no_crash() {
    let result = imports("from import");
    let _ = result;
}

#[test]
fn exports_all_list() {
    let result = exports("__all__ = ['foo', 'bar']");
    assert_eq!(result.len(), 2);
    assert!(result.iter().any(|e| e.name == "foo"));
    assert!(result.iter().any(|e| e.name == "bar"));
}

#[test]
fn exports_public_functions_and_classes() {
    let source = "\ndef public_func():\n    pass\n\ndef _private_func():\n    pass\n\nclass MyClass:\n    pass\n\nclass _Internal:\n    pass\n";
    let result = exports(source);
    let names: Vec<&str> = result.iter().map(|e| e.name.as_str()).collect();
    assert!(names.contains(&"public_func"));
    assert!(names.contains(&"MyClass"));
    assert!(!names.contains(&"_private_func"));
    assert!(!names.contains(&"_Internal"));
}

#[test]
fn exports_all_overrides_fallback() {
    let source = "\n__all__ = ['only_this']\n\ndef public_func():\n    pass\n";
    let result = exports(source);
    assert_eq!(result.len(), 1);
    assert_eq!(result[0].name, "only_this");
}

#[test]
fn exports_empty_source() {
    let result = exports("");
    assert!(result.is_empty());
}

#[test]
fn python_symbols_classes_methods_constants() {
    let source = "MAX_SIZE = 10\nlower = 1\n\nclass Service:\n    def run(self):\n        pass\n    def _helper(self):\n        pass\n\n@decorator\ndef wrapped():\n    pass\n";
    let tree = parse(Grammar::Python, source.as_bytes()).unwrap();
    let syms = PythonParser::new().extract_symbols(&tree);
    let names: Vec<&str> = syms.iter().map(|s| s.name.as_str()).collect();
    assert_eq!(names, vec!["MAX_SIZE", "Service", "run", "_helper", "wrapped"]);
    assert_eq!(syms[0].kind, SymbolKind::Const);
    assert_eq!(syms[1].kind, SymbolKind::Class);
    assert_eq!(syms[2].kind, SymbolKind::Method);
    assert_eq!(syms[2].parent.as_deref(), Some("Service"));
    assert_eq!(syms[3].visibility, Visibility::Private);
    assert_eq!(syms[4].kind, SymbolKind::Function);
    assert_eq!(syms[4].span.start, 10);
    assert_eq!(syms[4].signature.as_deref(), Some("def wrapped():"));
    assert_eq!(syms[1].signature.as_deref(), Some("class Service:"));
}

#[test]
fn python_exports_triple_quoted_all_entry() {
    let result = exports("__all__ = [\"\"\"name\"\"\"]");
    assert_eq!(result.len(), 1);
    assert_eq!(result[0].name, "name");
}
