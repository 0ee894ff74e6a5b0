use ariadne_graph::model::TextMap;
use ariadne_graph::parser::config::gomod::GoModConfig;
use ariadne_graph::parser::config::pyproject::PyProjectConfig;
use ariadne_graph::parser::config::tsconfig::TsConfig;
use ariadne_graph::diagnostic::{DiagnosticCollector, WarningCode};
use ariadne_graph::model::{CanonicalPath, FileSet};
use ariadne_graph::parser::config::tsconfig::TsLoad;
use ariadne_graph::parser::config::{discover_config, ProjectConfig};

fn empty_config() -> ProjectConfig {
    ProjectConfig {
        ts_configs: TextMap::new(),
        go_config: None,
        py_config: None,
        csproj_configs: TextMap::new(),
        dotnet_solution: None,
        gradle_configs: TextMap::new(),
        maven_configs: TextMap::new(),
        bundler_configs: TextMap::new(),
        turbo_config: None,
        next_routes: None,
    }
}

#[test]
fn js_path_aliases_empty_when_no_tsconfig() {
    let cfg = empty_config();
    assert!(cfg.js_path_aliases().is_empty());
}

#[test]
fn js_path_aliases_flattens_single_tsconfig() {
    let mut cfg = empty_config();
    let mut paths = TextMap::new();
    paths.insert("@app/*".to_string(), vec!["src/app/*".to_string()]);
    paths.insert(
        "@shared/*".to_string(),
        vec!["src/shared/*".to_string(), "packages/shared/*".to_string()],
    );
    cfg.ts_configs.insert(
        "".to_string(),
        TsConfig { config_dir: "".to_string(), base_url: Some(".".into()), paths },
    );
    let flat = cfg.js_path_aliases();
    assert_eq!(flat.len(), 2);
    assert_eq!(flat.get_str("@app/*").unwrap(), &vec!["src/app/*".to_string()]);
    assert_eq!(flat.get_str("@shared/*").unwrap().len(), 2);
}

#[test]
fn js_path_aliases_merges_multiple_tsconfigs() {
    let mut cfg = empty_config();
    let mut paths_a = TextMap::new();
    paths_a.insert("@a/*".to_string(), vec!["pkgs/a/*".to_string()]);
    let mut paths_b = TextMap::new();
    paths_b.insert("@b/*".to_string(), vec!["pkgs/b/*".to_string()]);
    cfg.ts_configs.insert(
        "packages/a".to_string(),
        TsConfig { config_dir: "packages/a".to_string(), base_url: None, paths: paths_a },
    );
    cfg.ts_configs.insert(
        "packages/b".to_string(),
        TsConfig { config_dir: "packages/b".to_string(), base_url: None, paths: paths_b },
    );
    let flat = cfg.js_path_aliases();
    assert!(flat.contains_key("@a/*"));
    assert!(flat.contains_key("@b/*"));
}

#[test]
fn js_path_aliases_later_directory_wins() {
    let mut cfg = empty_config();
    let mut paths_a = TextMap::new();
    paths_a.insert("@x/*".to_string(), vec!["a/*".to_string()]);
    let mut paths_b = TextMap::new();
    paths_b.insert("@x/*".to_string(), vec!["b/*".to_string()]);
    cfg.ts_configs.insert("b".to_string(), TsConfig { config_dir: "b".to_string(), base_url: None, paths: paths_b });
    cfg.ts_configs.insert("a".to_string(), TsConfig { config_dir: "a".to_string(), base_url: None, paths: paths_a });
    let flat = cfg.js_path_aliases();
    assert_eq!(flat.get_str("@x/*").unwrap(), &vec!["b/*".to_string()]);
}

#[test]
fn discovered_config_files_empty_by_default() {
    let cfg = empty_config();
    assert!(cfg.discovered_config_files().is_empty());
}

#[test]
fn discovered_config_files_lists_each_manifest_type() {
    let mut cfg = empty_config();
    cfg.ts_configs.insert(
        "".to_string(),
        TsConfig { config_dir: "".to_string(), base_url: None, paths: TextMap::new() },
    );
    cfg.go_config = Some(GoModConfig { module: "x".into() });
    cfg.py_config = Some(PyProjectConfig { package_name: Some("x".into()), src_layout: false });
    let files = cfg.discovered_config_files();
    assert!(files.iter().any(|p| p.ends_with("tsconfig.json")));
    assert!(files.iter().any(|p| p.ends_with("go.mod")));
    assert!(files.iter().any(|p| p.ends_with("pyproject.toml")));
}

#[test]
fn discovered_config_files_sorted_by_components_without_repeats() {
    let mut cfg = empty_config();
    for dir in ["a-b", "a", "a/b"] {
        cfg.ts_configs.insert(
            dir.to_string(),
            TsConfig { config_dir: dir.to_string(), base_url: None, paths: TextMap::new() },
        );
    }
    cfg.go_config = Some(GoModConfig { module: "m".into() });
    let files = cfg.discovered_config_files();
    assert_eq!(
        files,
        vec!["a/b/tsconfig.json", "a/tsconfig.json", "a-b/tsconfig.json", "go.mod"]
    );
}

fn reader(files: Vec<(&'static str, &'static str)>) -> impl Fn(String) -> Option<Vec<u8>> {
    move |p: String| files.iter().find(|(n, _)| *n == p).map(|(_, c)| c.as_bytes().to_vec())
}

fn ts_loader(files: Vec<(&'static str, &'static str)>) -> impl Fn(String) -> TsLoad {
    move |p: String| match files.iter().find(|(n, _)| *n == p) {
        Some((_, c)) => TsLoad::Loaded { canonical: p.clone(), content: c.to_string() },
        None => TsLoad::Missing,
    }
}

fn file_set(paths: &[&str]) -> FileSet {
    FileSet::from_paths(paths.iter().map(|p| CanonicalPath::new(p)).collect())
}

#[test]
fn discover_config_with_empty_fileset() {
    let mut diag = DiagnosticCollector::new();
    let files = FileSet::new();
    let config = discover_config("/root", "/root", &files, reader(vec![]), ts_loader(vec![]), &mut diag);
    assert!(config.ts_configs.is_empty());
    assert!(config.go_config.is_none());
    assert!(config.py_config.is_none());
    assert!(config.csproj_configs.is_empty());
    assert!(config.dotnet_solution.is_none());
    assert!(config.gradle_configs.is_empty());
    assert!(config.maven_configs.is_empty());
    assert!(config.bundler_configs.is_empty());
    assert!(config.turbo_config.is_none());
    assert!(config.next_routes.is_none());
}

#[test]
fn discover_config_finds_go_mod() {
    let mut diag = DiagnosticCollector::new();
    let files = FileSet::new();
    let read = reader(vec![("/root/go.mod", "module github.com/test/project\n\ngo 1.21\n")]);
    let config = discover_config("/root", "/root", &files, read, ts_loader(vec![]), &mut diag);
    assert!(config.go_config.is_some());
    assert_eq!(config.go_config.unwrap().module, "github.com/test/project");
}

#[test]
fn discover_config_finds_pyproject() {
    let mut diag = DiagnosticCollector::new();
    let files = FileSet::new();
    let read = reader(vec![("/root/pyproject.toml", "[project]\nname = \"myapp\"\n")]);
    let config = discover_config("/root", "/root", &files, read, ts_loader(vec![]), &mut diag);
    assert!(config.py_config.is_some());
    assert_eq!(config.py_config.unwrap().package_name.as_deref(), Some("myapp"));
}

#[test]
fn discover_config_relative_tsconfig_and_module_checks() {
    let mut diag = DiagnosticCollector::new();
    let files = file_set(&["web/tsconfig.json", "pom.xml", "a.sln", "b.sln"]);
    let read = reader(vec![
        ("/root/pom.xml", "<project><modules><module>core</module></modules></project>"),
        ("/root/a.sln", "Microsoft Visual Studio Solution File, Format Version 12.00\nGlobal\nEndGlobal\n"),
    ]);
    let load = ts_loader(vec![("/root/web/tsconfig.json", r#"{ "compilerOptions": { "baseUrl": "." } }"#)]);
    let config = discover_config("/root", "/root", &files, read, load, &mut diag);
    let ts = config.ts_configs.get_str("web").expect("tsconfig keyed by relative dir");
    assert_eq!(ts.config_dir, "web");
    assert!(config.maven_configs.contains_key(""));
    assert!(config.dotnet_solution.is_some());
    assert!(diag.has_code(WarningCode::W040MavenModuleNotFound));
    assert!(diag.has_code(WarningCode::W037MultipleSlnFiles));
}

#[test]
fn js_path_aliases_orders_directories_as_paths() {
    let mut cfg = empty_config();
    let mut paths_slash = TextMap::new();
    paths_slash.insert("@x/*".to_string(), vec!["from-a-slash-b/*".to_string()]);
    let mut paths_dash = TextMap::new();
    paths_dash.insert("@x/*".to_string(), vec!["from-a-dash-b/*".to_string()]);
    cfg.ts_configs.insert("a/b".to_string(), TsConfig { config_dir: "a/b".to_string(), base_url: None, paths: paths_slash });
    cfg.ts_configs.insert("a-b".to_string(), TsConfig { config_dir: "a-b".to_string(), base_url: None, paths: paths_dash });
    let flat = cfg.js_path_aliases();
    assert_eq!(flat.get_str("@x/*").unwrap(), &vec!["from-a-dash-b/*".to_string()]);
}

#[test]
fn resolvers_follow_discovered_config() {
    let r = ariadne_graph::parser::registry::resolvers_for(empty_config());
    assert!(r.typescript.ts_configs.is_none());
    assert!(r.python.config.is_none());
    assert!(r.go_module.is_none());
    assert!(r.csharp.csproj_configs.is_empty());

    let mut cfg = empty_config();
    cfg.ts_configs.insert("".to_string(), TsConfig { config_dir: "".to_string(), base_url: None, paths: TextMap::new() });
    cfg.go_config = Some(GoModConfig { module: "example.com/m".to_string() });
    cfg.py_config = Some(PyProjectConfig { src_layout: true, package_name: None });
    let r = ariadne_graph::parser::registry::resolvers_for(cfg);
    assert!(r.typescript.ts_configs.is_some());
    assert!(r.python.config.unwrap().src_layout);
    assert_eq!(r.go_module.as_deref(), Some("example.com/m"));
}

#[test]
fn discover_config_reads_every_csproj_the_last_per_directory_winning() {
    let mut diag = DiagnosticCollector::new();
    let files = file_set(&["api/A.csproj", "api/B.csproj", "web/Web.csproj", "bad/Bad.csproj"]);
    let read = reader(vec![
        ("/root/api/A.csproj", "<Project><PropertyGroup><AssemblyName>A</AssemblyName></PropertyGroup></Project>"),
        ("/root/api/B.csproj", "<Project><PropertyGroup><AssemblyName>B</AssemblyName></PropertyGroup></Project>"),
        ("/root/web/Web.csproj", "<Project><PropertyGroup><AssemblyName>Web</AssemblyName></PropertyGroup></Project>"),
        ("/root/bad/Bad.csproj", "<Project"),
    ]);
    let config = discover_config("/root", "/root", &files, read, ts_loader(vec![]), &mut diag);
    assert_eq!(config.csproj_configs.len(), 2);
    assert_eq!(config.csproj_configs.get_str("api").unwrap().assembly_name.as_deref(), Some("B"));
    assert_eq!(config.csproj_configs.get_str("web").unwrap().assembly_name.as_deref(), Some("Web"));
    assert!(diag.has_code(WarningCode::W034CsprojParseError));
}

#[test]
fn discover_config_merges_tsconfig_extends_chains() {
    let mut diag = DiagnosticCollector::new();
    let files = file_set(&["app/tsconfig.json"]);
    let load = ts_loader(vec![
        (
            "/root/app/tsconfig.json",
            r#"{ "extends": "../base.json", "compilerOptions": { "paths": { "@app/*": ["src/*"] } } }"#,
        ),
        ("/root/app/../base.json", r#"{ "compilerOptions": { "baseUrl": ".", "paths": { "@lib/*": ["lib/*"] } } }"#),
    ]);
    let config = discover_config("/root", "/root", &files, reader(vec![]), load, &mut diag);
    let ts = config.ts_configs.get_str("app").expect("tsconfig keyed by its directory");
    assert_eq!(ts.base_url.as_deref(), Some("."));
    assert!(ts.paths.get_str("@app/*").is_some());
    assert!(ts.paths.get_str("@lib/*").is_some());
}

#[test]
fn discover_config_takes_the_first_turbo_json_that_reads() {
    let mut diag = DiagnosticCollector::new();
    let files = file_set(&["a/turbo.json", "b/turbo.json", "c/turbo.json"]);
    let read = reader(vec![
        ("/root/b/turbo.json", r#"{ "tasks": { "build": { "dependsOn": ["^build"] } } }"#),
        ("/root/c/turbo.json", r#"{ "tasks": { "test": {} } }"#),
    ]);
    let config = discover_config("/root", "/root", &files, read, ts_loader(vec![]), &mut diag);
    let turbo = config.turbo_config.expect("turbo config from b");
    assert_eq!(turbo.config_dir, "b");
    assert!(turbo.pipeline.get_str("build").is_some());
    assert!(turbo.pipeline.get_str("test").is_none());
}

#[test]
fn discover_config_takes_gradle_subprojects_from_the_first_settings_file() {
    let mut diag = DiagnosticCollector::new();
    let files = file_set(&["build.gradle", "core/build.gradle"]);
    let read = reader(vec![
        ("/root/build.gradle", "group = 'com.example'\n"),
        ("/root/core/build.gradle", "group = 'com.example'\n"),
        ("/root/settings.gradle.kts", "include ':core'\ninclude ':web'\n"),
    ]);
    let config = discover_config("/root", "/root", &files, read, ts_loader(vec![]), &mut diag);
    let root = config.gradle_configs.get_str("").expect("root build");
    assert_eq!(root.subprojects.len(), 2);
    assert_eq!(root.subprojects[0].name, "core");
    assert!(config.gradle_configs.get_str("core").unwrap().subprojects.is_empty());
    assert!(diag.has_code(WarningCode::W041GradleSubprojectNotFound));
}
