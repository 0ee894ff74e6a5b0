use ariadne_graph::parser::csharp::CSharpParser;
use ariadne_graph::parser::traits::{RawExport, RawImport, SymbolKind, Visibility};
use ariadne_graph::syntax::{parse, Grammar};

fn cs_imports(source: &str) -> Vec<RawImport> {
    let tree = parse(Grammar::CSharp, source.as_bytes()).unwrap();
    CSharpParser::new().extract_imports(&tree)
}

fn cs_exports(source: &str) -> Vec<RawExport> {
    let tree = parse(Grammar::CSharp, source.as_bytes()).unwrap();
    CSharpParser::new().extract_exports(&tree)
}

#[test]
fn using_namespace() {
    let result = cs_imports("using System.Collections.Generic;");
    assert_eq!(result.len(), 1);
    assert_eq!(result[0].path, "System.Collections.Generic");
    assert!(result[0].symbols.is_empty());
}

#[test]
fn using_static() {
    let result = cs_imports("using static System.Math;");
    assert_eq!(result.len(), 1);
    assert_eq!(result[0].path, "System.Math");
    assert!(result[0].symbols.contains(&"static".to_string()));
}

#[test]
fn using_alias() {
    let result = cs_imports("using MyList = System.Collections.Generic.List<int>;");
    assert_eq!(result.len(), 1);
    assert!(result[0].symbols.contains(&"MyList".to_string()));
}

#[test]
fn multiple_usings() {
    let result = cs_imports("\nusing System;\nusing System.IO;\nusing System.Linq;\n");
    assert_eq!(result.len(), 3);
}

#[test]
fn using_inside_namespace() {
    let result = cs_imports("\nnamespace MyApp {\n    using System.Linq;\n    public class Foo {}\n}\n");
    assert_eq!(result.len(), 1);
    assert_eq!(result[0].path, "System.Linq");
}

#[test]
fn csharp_empty_source_no_imports() {
    let result = cs_imports("");
    assert!(result.is_empty());
}

#[test]
fn csharp_malformed_no_crash() {
    let result = cs_imports("using ;");
    let _ = result;
}

#[test]
fn csharp_public_class_exported() {
    let result = cs_exports("\nnamespace MyApp {\n    public class MyService {}\n}\n");
    assert_eq!(result.len(), 1);
    assert_eq!(result[0].name, "MyService");
}

#[test]
fn csharp_public_interface_exported() {
    let result = cs_exports("\nnamespace MyApp {\n    public interface IRepository {}\n}\n");
    assert_eq!(result.len(), 1);
    assert_eq!(result[0].name, "IRepository");
}

#[test]
fn internal_class_not_exported() {
    let result = cs_exports("\nnamespace MyApp {\n    class InternalClass {}\n}\n");
    assert!(result.is_empty());
}

#[test]
fn csharp_empty_source_no_exports() {
    let result = cs_exports("");
    assert!(result.is_empty());
}

#[test]
fn test_razor_using_directive() {
    let result = cs_imports("@using MyApp.Models\n<h1>Hello</h1>");
    assert_eq!(result.len(), 1);
    assert_eq!(result[0].path, "MyApp.Models");
}

#[test]
fn test_razor_inject_directive() {
    let result = cs_imports("@inject IUserService UserService\n<p>@UserService.Name</p>");
    assert_eq!(result.len(), 1);
    assert_eq!(result[0].path, "IUserService");
}

#[test]
fn test_razor_inherits_directive() {
    let result = cs_imports("@inherits LayoutComponentBase\n<div>@Body</div>");
    assert_eq!(result.len(), 1);
    assert_eq!(result[0].path, "LayoutComponentBase");
}

#[test]
fn test_razor_mixed_content() {
    let source = "@page \"/counter\"\n@using MyApp.Data\n@inject WeatherService Weather\n\n<h1>Counter</h1>\n<p>Current count: @count</p>\n<button @onclick=\"Increment\">Click me</button>\n\n@code {\n    private int count = 0;\n    private void Increment() { count++; }\n}\n";
    let result = cs_imports(source);
    assert_eq!(result.len(), 2);
    assert_eq!(result[0].path, "MyApp.Data");
    assert_eq!(result[1].path, "WeatherService");
}

#[test]
fn test_cs_file_not_detected_as_razor() {
    let source = "using System;\nusing System.Linq;\n\nnamespace MyApp {\n    public class Foo {}\n}\n";
    let result = cs_imports(source);
    assert_eq!(result.len(), 2);
    assert_eq!(result[0].path, "System");
    assert_eq!(result[1].path, "System.Linq");
}

#[test]
fn csharp_symbols_members() {
    let source = "namespace App {\n    public class Svc {\n        public const int Max = 3;\n        private void Run() {}\n    }\n    internal struct P {}\n}\n";
    let tree = parse(Grammar::CSharp, source.as_bytes()).unwrap();
    let syms = CSharpParser::new().extract_symbols(&tree);
    let names: Vec<&str> = syms.iter().map(|s| s.name.as_str()).collect();
    assert_eq!(names, vec!["Svc", "Max", "Run", "P"]);
    assert_eq!(syms[0].visibility, Visibility::Public);
    assert_eq!(syms[1].kind, SymbolKind::Const);
    assert_eq!(syms[1].parent.as_deref(), Some("Svc"));
    assert_eq!(syms[2].visibility, Visibility::Private);
    assert_eq!(syms[3].kind, SymbolKind::Struct);
    assert_eq!(syms[3].visibility, Visibility::Internal);
}
