use ariadne_graph::model::{CanonicalPath, FileSet, TextMap};
use ariadne_graph::parser::config::gradle::GradleConfig;
use ariadne_graph::parser::config::maven::MavenConfig;
use ariadne_graph::parser::java::{JavaBuildConfig, JavaConfigResolver, JavaResolver};
use ariadne_graph::parser::traits::{ImportKind, ImportResolver, RawImport};

fn make_file_set(paths: &[&str]) -> FileSet {
    FileSet::from_paths(paths.iter().map(|p| CanonicalPath::new(p)).collect())
}

fn make_import(path: &str) -> RawImport {
    RawImport {
        path: path.to_string(),
        symbols: Vec::new(),
        is_type_only: false,
        kind: ImportKind::Regular,
    }
}

fn dummy_from_file() -> CanonicalPath {
    CanonicalPath::new("src/main/java/com/example/App.java")
}

fn gradle(group: Option<&str>, source_dirs: Vec<&str>) -> GradleConfig {
    GradleConfig {
        config_dir: String::new(),
        group: group.map(|g| g.to_string()),
        version: None,
        source_dirs: source_dirs.iter().map(|s| s.to_string()).collect(),
        test_source_dirs: vec![],
        dependencies: vec![],
        subprojects: vec![],
        is_android: false,
    }
}

fn resolved(r: Option<CanonicalPath>) -> Option<String> {
    r.map(|p| p.as_str().to_string())
}

#[test]
fn test_config_resolver_gradle_source_dir() {
    let config = JavaBuildConfig::Gradle {
        config: gradle(Some("com.example"), vec!["src/main/java"]),
        subconfigs: TextMap::new(),
    };
    let resolver = JavaConfigResolver { build_config: config };
    let file_set = make_file_set(&["src/main/java/com/example/MyClass.java"]);
    let import = make_import("com.example.MyClass");
    let result = resolver.resolve(&import, &dummy_from_file(), &file_set, None);
    assert_eq!(resolved(result), Some("src/main/java/com/example/MyClass.java".to_string()));
}

#[test]
fn test_config_resolver_maven_source_dir() {
    let mut configs = TextMap::new();
    configs.insert(
        String::new(),
        MavenConfig {
            config_path: String::new(),
            config_dir: String::new(),
            group_id: Some("com.example".to_string()),
            artifact_id: Some("myapp".to_string()),
            version: None,
            packaging: None,
            source_directory: Some("src/main/java".to_string()),
            test_source_directory: None,
            modules: vec![],
            dependencies: vec![],
            parent: None,
        },
    );
    let resolver = JavaConfigResolver { build_config: JavaBuildConfig::Maven { configs } };
    let file_set = make_file_set(&["src/main/java/com/example/Service.java"]);
    let import = make_import("com.example.Service");
    let result = resolver.resolve(&import, &dummy_from_file(), &file_set, None);
    assert_eq!(resolved(result), Some("src/main/java/com/example/Service.java".to_string()));
}

#[test]
fn test_config_resolver_external_dep_skipped() {
    let config = JavaBuildConfig::Gradle {
        config: gradle(Some("com.example"), vec!["src/main/java"]),
        subconfigs: TextMap::new(),
    };
    let resolver = JavaConfigResolver { build_config: config };
    let file_set = make_file_set(&["src/main/java/com/example/MyClass.java"]);
    let import = make_import("org.springframework.web.bind.annotation.RestController");
    let result = resolver.resolve(&import, &dummy_from_file(), &file_set, None);
    assert!(result.is_none());
}

#[test]
fn test_config_resolver_fallback() {
    let config = JavaBuildConfig::Gradle { config: gradle(None, vec![]), subconfigs: TextMap::new() };
    let resolver = JavaConfigResolver { build_config: config };
    let file_set = make_file_set(&["src/main/java/com/example/Fallback.java"]);
    let import = make_import("com.example.Fallback");
    let result = resolver.resolve(&import, &dummy_from_file(), &file_set, None);
    assert_eq!(resolved(result), Some("src/main/java/com/example/Fallback.java".to_string()));
}

#[test]
fn java_wildcard_import_first_direct_file() {
    let files = make_file_set(&[
        "src/main/java/com/example/util/deep/X.java",
        "src/main/java/com/example/util/Strings.java",
    ]);
    let import = make_import("com.example.util.*");
    let result = JavaResolver.resolve(&import, &dummy_from_file(), &files, None);
    assert_eq!(resolved(result), Some("src/main/java/com/example/util/Strings.java".to_string()));
}

#[test]
fn java_static_import_names_class() {
    let files = make_file_set(&["com/example/Math.java"]);
    let mut import = make_import("com.example.Math.max");
    import.symbols = vec!["static".to_string()];
    let result = JavaResolver.resolve(&import, &dummy_from_file(), &files, None);
    assert_eq!(resolved(result), Some("com/example/Math.java".to_string()));
}

#[test]
fn java_subproject_source_dirs() {
    let mut subs = TextMap::new();
    let mut core = gradle(None, vec!["src/main/kotlin"]);
    core.config_dir = "core".to_string();
    subs.insert("core".to_string(), core);
    let config = JavaBuildConfig::Gradle { config: gradle(Some("com.example"), vec![]), subconfigs: subs };
    let resolver = JavaConfigResolver { build_config: config };
    let dirs = resolver.collect_source_dirs();
    assert_eq!(dirs.len(), 1);
    let files = make_file_set(&["core/src/main/kotlin/com/example/Model.java"]);
    let result = resolver.resolve(&make_import("com.example.Model"), &dummy_from_file(), &files, None);
    assert_eq!(resolved(result), Some("core/src/main/kotlin/com/example/Model.java".to_string()));
    assert!(resolver.is_external_import("org.other.Thing"));
    assert!(!resolver.is_external_import("com.example.Thing"));
    assert!(!resolver.is_external_import("Thing"));
}
