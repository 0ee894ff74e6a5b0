use ariadne_graph::parser::json_lang::JsonParser;
use ariadne_graph::parser::traits::{RawExport, RawImport};
use ariadne_graph::parser::yaml::YamlParser;
use ariadne_graph::syntax::{parse, Grammar};

fn json_imports(source: &str) -> Vec<RawImport> {
    let tree = parse(Grammar::Json, source.as_bytes()).unwrap();
    JsonParser::new().extract_imports(&tree)
}

fn json_exports(source: &str) -> Vec<RawExport> {
    let tree = parse(Grammar::Json, source.as_bytes()).unwrap();
    JsonParser::new().extract_exports(&tree)
}

fn yaml_imports(source: &str) -> Vec<RawImport> {
    let tree = parse(Grammar::Yaml, source.as_bytes()).unwrap();
    YamlParser::new().extract_imports(&tree)
}

fn yaml_exports(source: &str) -> Vec<RawExport> {
    let tree = parse(Grammar::Yaml, source.as_bytes()).unwrap();
    YamlParser::new().extract_exports(&tree)
}

#[test]
fn valid_json_returns_no_imports() {
    let source = r#"{"name": "test", "version": "1.0"}"#;
    assert!(json_imports(source).is_empty());
}

#[test]
fn valid_json_returns_no_exports() {
    let source = r#"{"name": "test", "version": "1.0"}"#;
    assert!(json_exports(source).is_empty());
}

#[test]
fn empty_json_object() {
    assert!(json_imports("{}").is_empty());
    assert!(json_exports("{}").is_empty());
}

#[test]
fn json_lang_empty_source() {
    let tree = parse(Grammar::Json, b"").unwrap();
    assert!(JsonParser::new().extract_imports(&tree).is_empty());
    assert!(JsonParser::new().extract_exports(&tree).is_empty());
}

#[test]
fn valid_yaml_returns_no_imports() {
    let source = "name: test\nversion: 1.0\nitems:\n  - 1\n  - 2\n";
    assert!(yaml_imports(source).is_empty());
}

#[test]
fn valid_yaml_returns_no_exports() {
    let source = "name: test\nversion: 1.0\n";
    assert!(yaml_exports(source).is_empty());
}

#[test]
fn empty_yaml() {
    let tree = parse(Grammar::Yaml, b"").unwrap();
    assert!(YamlParser::new().extract_imports(&tree).is_empty());
    assert!(YamlParser::new().extract_exports(&tree).is_empty());
}

#[test]
fn data_parser_extensions() {
    assert_eq!(JsonParser::new().extensions(), vec!["json"]);
    assert_eq!(YamlParser::new().extensions(), vec!["yaml", "yml"]);
    assert_eq!(JsonParser::new().language(), "json");
    assert_eq!(YamlParser::new().language(), "yaml");
}
