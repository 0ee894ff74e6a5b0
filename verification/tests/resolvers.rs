use ariadne_graph::model::{CanonicalPath, FileSet};
use ariadne_graph::parser::config::pyproject::PyProjectConfig;
use ariadne_graph::parser::json_lang::JsonResolver;
use ariadne_graph::parser::markdown::{normalize_path, MarkdownResolver};
use ariadne_graph::parser::python::PythonResolver;
use ariadne_graph::parser::traits::{ImportKind, ImportResolver, RawImport};
use ariadne_graph::parser::yaml::YamlResolver;

fn import_of(path: &str, kind: ImportKind) -> RawImport {
    RawImport {
        path: path.to_string(),
        symbols: vec![],
        is_type_only: false,
        kind,
    }
}

fn files(paths: &[&str]) -> FileSet {
    FileSet::from_paths(paths.iter().map(|p| CanonicalPath::new(p)).collect())
}

#[test]
fn json_lang_resolver_always_none() {
    let import = import_of("./other.json", ImportKind::Regular);
    let from = CanonicalPath::new("data/config.json");
    let files = FileSet::new();
    assert_eq!(JsonResolver.resolve(&import, &from, &files, None), None);
}

#[test]
fn yaml_resolver_always_none() {
    let import = import_of("./other.yaml", ImportKind::Regular);
    let from = CanonicalPath::new("data/config.yaml");
    let files = FileSet::new();
    assert_eq!(YamlResolver.resolve(&import, &from, &files, None), None);
}

#[test]
fn resolve_relative_link() {
    let files = files(&["docs/guide.md", "docs/README.md"]);
    let import = import_of("./guide.md", ImportKind::Link);
    let from = CanonicalPath::new("docs/README.md");
    let resolved = MarkdownResolver.resolve(&import, &from, &files, None);
    assert_eq!(resolved, Some(CanonicalPath::new("docs/guide.md")));
}

#[test]
fn resolve_parent_relative_link() {
    let files = files(&["README.md", "docs/guide.md"]);
    let import = import_of("../README.md", ImportKind::Link);
    let from = CanonicalPath::new("docs/guide.md");
    let resolved = MarkdownResolver.resolve(&import, &from, &files, None);
    assert_eq!(resolved, Some(CanonicalPath::new("README.md")));
}

#[test]
fn resolve_unresolvable_link() {
    let files = FileSet::new();
    let import = import_of("./nonexistent.md", ImportKind::Link);
    let from = CanonicalPath::new("docs/README.md");
    let resolved = MarkdownResolver.resolve(&import, &from, &files, None);
    assert_eq!(resolved, None);
}

#[test]
fn normalize_dot_segments() {
    assert_eq!(normalize_path("a/./b"), "a/b");
    assert_eq!(normalize_path("a/../b"), "b");
    assert_eq!(normalize_path("a/b/../c/./d"), "a/c/d");
}

#[test]
fn normalize_leading_dotdot() {
    assert_eq!(normalize_path("../a"), "../a");
}

#[test]
fn normalize_empty_is_dot() {
    assert_eq!(normalize_path(""), ".");
    assert_eq!(normalize_path("/a/../b"), "/b");
}

#[test]
fn resolve_src_layout_absolute_import() {
    let resolver = PythonResolver::with_config(PyProjectConfig {
        src_layout: true,
        package_name: Some("myapp".to_string()),
    });
    let known = files(&["src/myapp/utils.py"]);
    let import = import_of("myapp.utils", ImportKind::Regular);
    let from = CanonicalPath::new("src/myapp/main.py");
    let result = resolver.resolve(&import, &from, &known, None);
    assert_eq!(result, Some(CanonicalPath::new("src/myapp/utils.py")));
}

#[test]
fn resolve_src_layout_package_init() {
    let resolver = PythonResolver::with_config(PyProjectConfig {
        src_layout: true,
        package_name: Some("myapp".to_string()),
    });
    let known = files(&["src/myapp/__init__.py"]);
    let import = import_of("myapp", ImportKind::Regular);
    let from = CanonicalPath::new("tests/test_main.py");
    let result = resolver.resolve(&import, &from, &known, None);
    assert_eq!(result, Some(CanonicalPath::new("src/myapp/__init__.py")));
}

#[test]
fn no_src_layout_standard_resolution() {
    let resolver = PythonResolver::with_config(PyProjectConfig {
        src_layout: false,
        package_name: Some("myapp".to_string()),
    });
    let known = files(&["myapp/utils.py"]);
    let import = import_of("myapp.utils", ImportKind::Regular);
    let from = CanonicalPath::new("myapp/main.py");
    let result = resolver.resolve(&import, &from, &known, None);
    assert_eq!(result, Some(CanonicalPath::new("myapp/utils.py")));
}

#[test]
fn python_no_config_preserves_existing_behavior() {
    let resolver = PythonResolver::new();
    let known = files(&["myapp/utils.py"]);
    let import = import_of("myapp.utils", ImportKind::Regular);
    let from = CanonicalPath::new("myapp/main.py");
    let result = resolver.resolve(&import, &from, &known, None);
    assert_eq!(result, Some(CanonicalPath::new("myapp/utils.py")));
}

#[test]
fn src_layout_fallback_to_standard() {
    let resolver = PythonResolver::with_config(PyProjectConfig {
        src_layout: true,
        package_name: Some("myapp".to_string()),
    });
    let known = files(&["myapp/utils.py"]);
    let import = import_of("myapp.utils", ImportKind::Regular);
    let from = CanonicalPath::new("tests/test_main.py");
    let result = resolver.resolve(&import, &from, &known, None);
    assert_eq!(result, Some(CanonicalPath::new("myapp/utils.py")));
}

#[test]
fn python_relative_import_goes_up_per_extra_dot() {
    let resolver = PythonResolver::new();
    let known = files(&["pkg/models.py", "pkg/sub/views.py"]);
    let import = import_of("..models", ImportKind::Regular);
    let from = CanonicalPath::new("pkg/sub/views.py");
    let result = resolver.resolve(&import, &from, &known, None);
    assert_eq!(result, Some(CanonicalPath::new("pkg/models.py")));
}
