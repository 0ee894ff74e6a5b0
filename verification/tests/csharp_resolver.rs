use ariadne_graph::model::{CanonicalPath, FileSet, TextMap};
use ariadne_graph::parser::config::csproj::{CsprojConfig, PackageRef, ProjectRef};
use ariadne_graph::parser::csharp::CSharpResolver;
use ariadne_graph::parser::traits::{ImportKind, ImportResolver, RawImport};

fn make_import(path: &str) -> RawImport {
    RawImport {
        path: path.to_string(),
        symbols: Vec::new(),
        is_type_only: false,
        kind: ImportKind::Regular,
    }
}

fn make_from_file(path: &str) -> CanonicalPath {
    CanonicalPath::new(path)
}

fn files(paths: &[&str]) -> FileSet {
    FileSet::from_paths(paths.iter().map(|p| CanonicalPath::new(p)).collect())
}

fn config(path: &str, dir: &str, root: Option<&str>) -> CsprojConfig {
    CsprojConfig {
        project_path: path.to_string(),
        project_dir: dir.to_string(),
        target_framework: None,
        root_namespace: root.map(|s| s.to_string()),
        assembly_name: None,
        project_references: Vec::new(),
        package_references: Vec::new(),
    }
}

#[test]
fn test_resolver_filters_system_namespace() {
    let resolver = CSharpResolver::new();
    let files = FileSet::new();
    let import = make_import("System.Collections.Generic");
    let result = resolver.resolve(&import, &make_from_file("src/App.cs"), &files, None);
    assert!(result.is_none());
}

#[test]
fn test_resolver_filters_microsoft_namespace() {
    let resolver = CSharpResolver::new();
    let files = FileSet::new();
    let import = make_import("Microsoft.Extensions.DependencyInjection");
    let result = resolver.resolve(&import, &make_from_file("src/App.cs"), &files, None);
    assert!(result.is_none());
}

#[test]
fn test_resolver_filters_nuget_package() {
    let mut c = config("App.csproj", "", None);
    c.package_references = vec![PackageRef { name: "Newtonsoft".to_string(), version: None }];
    let mut configs = TextMap::new();
    configs.insert("".to_string(), c);
    let resolver = CSharpResolver::new().with_csproj_configs(configs);
    let files = FileSet::new();
    let import = make_import("Newtonsoft.Json");
    let result = resolver.resolve(&import, &make_from_file("src/App.cs"), &files, None);
    assert!(result.is_none());
}

#[test]
fn test_resolver_namespace_to_path() {
    let resolver = CSharpResolver::new();
    let files = files(&["MyApp/Services/UserService.cs"]);
    let import = make_import("MyApp.Services.UserService");
    let result = resolver.resolve(&import, &make_from_file("src/App.cs"), &files, None);
    assert_eq!(
        result.map(|p| p.as_str().to_string()),
        Some("MyApp/Services/UserService.cs".to_string())
    );
}

#[test]
fn test_resolver_with_root_namespace_stripping() {
    let mut c = config("src/MyApp/MyApp.csproj", "src/MyApp", Some("MyApp"));
    c.target_framework = Some("net8.0".to_string());
    c.assembly_name = Some("MyApp".to_string());
    let mut configs = TextMap::new();
    configs.insert("src/MyApp".to_string(), c);
    let resolver = CSharpResolver::new().with_csproj_configs(configs);
    let files = files(&["src/MyApp/Services/Foo.cs"]);
    let import = make_import("MyApp.Services.Foo");
    let result = resolver.resolve(&import, &make_from_file("src/MyApp/Program.cs"), &files, None);
    assert_eq!(
        result.map(|p| p.as_str().to_string()),
        Some("src/MyApp/Services/Foo.cs".to_string())
    );
}

#[test]
fn test_resolver_fallback_without_config() {
    let resolver = CSharpResolver::new();
    let files = files(&["Models/User.cs"]);
    let import = make_import("Models.User");
    let result = resolver.resolve(&import, &make_from_file("src/App.cs"), &files, None);
    assert_eq!(result.map(|p| p.as_str().to_string()), Some("Models/User.cs".to_string()));
}

#[test]
fn csharp_namespace_as_directory() {
    let resolver = CSharpResolver::new();
    let files = files(&["MyApp/Models/Deep/X.cs", "MyApp/Models/User.cs"]);
    let import = make_import("MyApp.Models");
    let result = resolver.resolve(&import, &make_from_file("src/App.cs"), &files, None);
    assert_eq!(result.map(|p| p.as_str().to_string()), Some("MyApp/Models/User.cs".to_string()));
}

#[test]
fn csharp_cross_project_reference() {
    let mut app = config("src/App/App.csproj", "src/App", Some("App"));
    app.project_references = vec![ProjectRef {
        path: "../Lib/Lib.csproj".to_string(),
        resolved_path: Some("src/Lib/Lib.csproj".to_string()),
    }];
    let lib = config("src/Lib/Lib.csproj", "src/Lib", Some("Company.Lib"));
    let mut configs = TextMap::new();
    configs.insert("src/App".to_string(), app);
    configs.insert("src/Lib".to_string(), lib);
    let resolver = CSharpResolver::new().with_csproj_configs(configs);
    let files = files(&["src/Lib/Util/Strings.cs", "src/App/Program.cs"]);
    let import = make_import("Company.Lib.Util.Strings");
    let result = resolver.resolve(&import, &make_from_file("src/App/Program.cs"), &files, None);
    assert_eq!(result.map(|p| p.as_str().to_string()), Some("src/Lib/Util/Strings.cs".to_string()));
}

#[test]
fn csharp_known_packages_collected() {
    let mut c = config("App.csproj", "", None);
    c.package_references = vec![
        PackageRef { name: "Serilog".to_string(), version: None },
        PackageRef { name: "MediatR".to_string(), version: Some("12".to_string()) },
    ];
    let mut configs = TextMap::new();
    configs.insert("".to_string(), c);
    let resolver = CSharpResolver::new().with_csproj_configs(configs);
    assert_eq!(resolver.known_packages, vec!["Serilog".to_string(), "MediatR".to_string()]);
    assert!(resolver.is_nuget_package("MediatR.Extensions"));
    assert!(!resolver.is_nuget_package("Mediat"));
    assert!(resolver.is_framework_namespace("Windows.Forms"));
    assert!(!resolver.is_framework_namespace("Systems.X"));
}
