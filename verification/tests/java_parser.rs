use ariadne_graph::parser::java::JavaParser;
use ariadne_graph::parser::traits::{RawExport, RawImport, SymbolKind, Visibility};
use ariadne_graph::syntax::{parse, Grammar};

fn java_imports(source: &str) -> Vec<RawImport> {
    let tree = parse(Grammar::Java, source.as_bytes()).unwrap();
    JavaParser::new().extract_imports(&tree)
}

fn java_exports(source: &str) -> Vec<RawExport> {
    let tree = parse(Grammar::Java, source.as_bytes()).unwrap();
    JavaParser::new().extract_exports(&tree)
}

#[test]
fn import_single_class() {
    let result = java_imports("import com.example.MyClass;");
    assert_eq!(result.len(), 1);
    assert_eq!(result[0].path, "com.example.MyClass");
    assert!(result[0].symbols.is_empty());
}

#[test]
fn import_wildcard() {
    let result = java_imports("import com.example.*;");
    assert_eq!(result.len(), 1);
    assert_eq!(result[0].path, "com.example.*");
}

#[test]
fn import_static() {
    let result = java_imports("import static org.junit.Assert.assertEquals;");
    assert_eq!(result.len(), 1);
    assert_eq!(result[0].path, "org.junit.Assert.assertEquals");
    assert!(result[0].symbols.contains(&"static".to_string()));
}

#[test]
fn import_multiple() {
    let source = "\nimport java.util.List;\nimport java.util.Map;\nimport java.io.File;\n";
    let result = java_imports(source);
    assert_eq!(result.len(), 3);
}

#[test]
fn import_static_wildcard() {
    let result = java_imports("import static com.example.Constants.*;");
    assert_eq!(result.len(), 1);
    assert!(result[0].symbols.contains(&"static".to_string()));
}

#[test]
fn java_empty_source_no_imports() {
    let result = java_imports("");
    assert!(result.is_empty());
}

#[test]
fn java_malformed_no_crash() {
    let result = java_imports("import ;");
    let _ = result;
}

#[test]
fn java_public_class_exported() {
    let result = java_exports("public class MyService {}");
    assert_eq!(result.len(), 1);
    assert_eq!(result[0].name, "MyService");
}

#[test]
fn java_public_interface_exported() {
    let result = java_exports("public interface Dao {}");
    assert_eq!(result.len(), 1);
    assert_eq!(result[0].name, "Dao");
}

#[test]
fn package_private_class_not_exported() {
    let result = java_exports("class Internal {}");
    assert!(result.is_empty());
}

#[test]
fn public_enum_exported() {
    let result = java_exports("public enum Status { ACTIVE, INACTIVE }");
    assert_eq!(result.len(), 1);
    assert_eq!(result[0].name, "Status");
}

#[test]
fn java_empty_source_no_exports() {
    let result = java_exports("");
    assert!(result.is_empty());
}

#[test]
fn java_symbols_members_and_constants() {
    let source = "public class Svc {\n    public static final int MAX = 3;\n    private void run() {}\n    int count;\n}\n";
    let tree = parse(Grammar::Java, source.as_bytes()).unwrap();
    let syms = JavaParser::new().extract_symbols(&tree);
    let names: Vec<&str> = syms.iter().map(|s| s.name.as_str()).collect();
    assert_eq!(names, vec!["Svc", "MAX", "run"]);
    assert_eq!(syms[0].kind, SymbolKind::Class);
    assert_eq!(syms[0].visibility, Visibility::Public);
    assert_eq!(syms[1].kind, SymbolKind::Const);
    assert_eq!(syms[1].parent.as_deref(), Some("Svc"));
    assert_eq!(syms[2].kind, SymbolKind::Method);
    assert_eq!(syms[2].visibility, Visibility::Private);
    assert_eq!(syms[2].span.start, 3);
}
