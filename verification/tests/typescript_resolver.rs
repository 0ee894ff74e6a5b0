use ariadne_graph::model::{CanonicalPath, FileSet, TextMap, WorkspaceInfo, WorkspaceKind, WorkspaceMember};
use ariadne_graph::parser::config::bundler::BundlerConfig;
use ariadne_graph::parser::config::tsconfig::TsConfig;
use ariadne_graph::parser::traits::{ImportKind, ImportResolver, RawImport};
use ariadne_graph::parser::typescript::TypeScriptResolver;

fn make_import(path: &str) -> RawImport {
    RawImport {
        path: path.to_string(),
        symbols: Vec::new(),
        is_type_only: false,
        kind: ImportKind::Regular,
    }
}

fn make_workspace() -> WorkspaceInfo {
    WorkspaceInfo {
        kind: WorkspaceKind::Npm,
        members: vec![
            WorkspaceMember {
                name: "@myapp/auth".to_string(),
                path: "packages/auth".to_string(),
                entry_point: "packages/auth/src/index.ts".to_string(),
            },
            WorkspaceMember {
                name: "@myapp/utils".to_string(),
                path: "packages/utils".to_string(),
                entry_point: "packages/utils/src/index.ts".to_string(),
            },
        ],
    }
}

fn make_files(paths: &[&str]) -> FileSet {
    FileSet::from_paths(paths.iter().map(|p| CanonicalPath::new(p)).collect())
}

#[test]
fn workspace_direct_package_import() {
    let resolver = TypeScriptResolver::new();
    let ws = make_workspace();
    let files = make_files(&[
        "packages/auth/src/index.ts",
        "packages/utils/src/index.ts",
        "apps/web/src/app.ts",
    ]);
    let from = CanonicalPath::new("apps/web/src/app.ts");
    let import = make_import("@myapp/auth");
    let result = resolver.resolve(&import, &from, &files, Some(&ws));
    assert_eq!(result.unwrap().as_str(), "packages/auth/src/index.ts");
}

#[test]
fn workspace_subpath_import() {
    let resolver = TypeScriptResolver::new();
    let ws = make_workspace();
    let files = make_files(&[
        "packages/auth/src/index.ts",
        "packages/auth/utils.ts",
        "apps/web/src/app.ts",
    ]);
    let from = CanonicalPath::new("apps/web/src/app.ts");
    let import = make_import("@myapp/auth/utils");
    let result = resolver.resolve(&import, &from, &files, Some(&ws));
    assert_eq!(result.unwrap().as_str(), "packages/auth/utils.ts");
}

#[test]
fn workspace_subpath_import_with_extension_probing() {
    let resolver = TypeScriptResolver::new();
    let ws = make_workspace();
    let files = make_files(&[
        "packages/auth/src/index.ts",
        "packages/auth/helpers/validate.ts",
        "apps/web/src/app.ts",
    ]);
    let from = CanonicalPath::new("apps/web/src/app.ts");
    let import = make_import("@myapp/auth/helpers/validate");
    let result = resolver.resolve(&import, &from, &files, Some(&ws));
    assert_eq!(result.unwrap().as_str(), "packages/auth/helpers/validate.ts");
}

#[test]
fn non_workspace_scoped_package_returns_none() {
    let resolver = TypeScriptResolver::new();
    let ws = make_workspace();
    let files = make_files(&["apps/web/src/app.ts"]);
    let from = CanonicalPath::new("apps/web/src/app.ts");
    let import = make_import("@types/react");
    let result = resolver.resolve(&import, &from, &files, Some(&ws));
    assert!(result.is_none());
}

#[test]
fn bare_specifier_returns_none_with_workspace() {
    let resolver = TypeScriptResolver::new();
    let ws = make_workspace();
    let files = make_files(&["apps/web/src/app.ts"]);
    let from = CanonicalPath::new("apps/web/src/app.ts");
    let import = make_import("lodash");
    let result = resolver.resolve(&import, &from, &files, Some(&ws));
    assert!(result.is_none());
}

#[test]
fn relative_import_unchanged_with_workspace() {
    let resolver = TypeScriptResolver::new();
    let ws = make_workspace();
    let files = make_files(&["apps/web/src/app.ts", "apps/web/src/utils.ts"]);
    let from = CanonicalPath::new("apps/web/src/app.ts");
    let import = make_import("./utils");
    let result = resolver.resolve(&import, &from, &files, Some(&ws));
    assert_eq!(result.unwrap().as_str(), "apps/web/src/utils.ts");
}

#[test]
fn workspace_none_keeps_existing_behavior() {
    let resolver = TypeScriptResolver::new();
    let files = make_files(&["src/app.ts", "src/utils.ts"]);
    let from = CanonicalPath::new("src/app.ts");
    let import = make_import("./utils");
    let result = resolver.resolve(&import, &from, &files, None);
    assert_eq!(result.unwrap().as_str(), "src/utils.ts");
}

#[test]
fn workspace_none_bare_specifier_returns_none() {
    let resolver = TypeScriptResolver::new();
    let files = make_files(&["src/app.ts"]);
    let from = CanonicalPath::new("src/app.ts");
    let import = make_import("lodash");
    let result = resolver.resolve(&import, &from, &files, None);
    assert!(result.is_none());
}

#[test]
fn workspace_subpath_index_file() {
    let resolver = TypeScriptResolver::new();
    let ws = make_workspace();
    let files = make_files(&[
        "packages/auth/src/index.ts",
        "packages/auth/helpers/index.ts",
        "apps/web/src/app.ts",
    ]);
    let from = CanonicalPath::new("apps/web/src/app.ts");
    let import = make_import("@myapp/auth/helpers");
    let result = resolver.resolve(&import, &from, &files, Some(&ws));
    assert_eq!(result.unwrap().as_str(), "packages/auth/helpers/index.ts");
}

fn make_resolver_with_config(
    config_dir: &str,
    base_url: Option<&str>,
    paths: Vec<(&str, Vec<&str>)>,
) -> TypeScriptResolver {
    let mut ts_configs = TextMap::new();
    let mut paths_map = TextMap::new();
    for (pattern, targets) in paths {
        paths_map.insert(
            pattern.to_string(),
            targets.into_iter().map(|s| s.to_string()).collect(),
        );
    }
    let config = TsConfig {
        config_dir: config_dir.to_string(),
        base_url: base_url.map(|s| s.to_string()),
        paths: paths_map,
    };
    ts_configs.insert(config_dir.to_string(), config);
    TypeScriptResolver::new().with_ts_configs(ts_configs)
}

fn files_of(paths: &[&str]) -> FileSet {
    make_files(paths)
}

#[test]
fn resolve_via_path_alias() {
    let resolver = make_resolver_with_config("", Some("."), vec![("@/*", vec!["src/*"])]);
    let known = files_of(&["src/components/Button.ts"]);
    let import = make_import("@/components/Button");
    let from = CanonicalPath::new("src/app.ts");
    let result = resolver.resolve(&import, &from, &known, None);
    assert_eq!(result, Some(CanonicalPath::new("src/components/Button.ts")));
}

#[test]
fn resolve_via_base_url() {
    let resolver = make_resolver_with_config("", Some("src"), vec![]);
    let known = files_of(&["src/utils/helper.ts"]);
    let import = make_import("utils/helper");
    let from = CanonicalPath::new("src/app.ts");
    let result = resolver.resolve(&import, &from, &known, None);
    assert_eq!(result, Some(CanonicalPath::new("src/utils/helper.ts")));
}

#[test]
fn alias_fails_falls_through_to_standard() {
    let resolver = make_resolver_with_config("", Some("."), vec![("@/*", vec!["lib/*"])]);
    let known = files_of(&["src/utils.ts"]);
    let import = make_import("./utils");
    let from = CanonicalPath::new("src/app.ts");
    let result = resolver.resolve(&import, &from, &known, None);
    assert_eq!(result, Some(CanonicalPath::new("src/utils.ts")));
}

#[test]
fn typescript_no_config_preserves_existing_behavior() {
    let resolver = TypeScriptResolver::new();
    let known = files_of(&["src/utils.ts"]);
    let import = make_import("./utils");
    let from = CanonicalPath::new("src/app.ts");
    let result = resolver.resolve(&import, &from, &known, None);
    assert_eq!(result, Some(CanonicalPath::new("src/utils.ts")));
}

#[test]
fn alias_with_extension_probing() {
    let resolver = make_resolver_with_config(
        "",
        Some("."),
        vec![("@components/*", vec!["src/components/*"])],
    );
    let known = files_of(&["src/components/Button.tsx"]);
    let import = make_import("@components/Button");
    let from = CanonicalPath::new("src/pages/Home.tsx");
    let result = resolver.resolve(&import, &from, &known, None);
    assert_eq!(result, Some(CanonicalPath::new("src/components/Button.tsx")));
}

#[test]
fn alias_with_index_probing() {
    let resolver = make_resolver_with_config("", Some("."), vec![("@/*", vec!["src/*"])]);
    let known = files_of(&["src/components/index.ts"]);
    let import = make_import("@/components");
    let from = CanonicalPath::new("src/app.ts");
    let result = resolver.resolve(&import, &from, &known, None);
    assert_eq!(result, Some(CanonicalPath::new("src/components/index.ts")));
}

#[test]
fn bare_specifier_without_config_skipped() {
    let resolver = TypeScriptResolver::new();
    let known = FileSet::new();
    let import = make_import("lodash");
    let from = CanonicalPath::new("src/app.ts");
    let result = resolver.resolve(&import, &from, &known, None);
    assert_eq!(result, None);
}

#[test]
fn empty_configs_no_effect() {
    let resolver = TypeScriptResolver::new().with_ts_configs(TextMap::new());
    assert!(resolver.ts_configs.is_none());
}

fn make_bundler_resolver(aliases: Vec<(&str, &str)>) -> TypeScriptResolver {
    let mut alias_map = TextMap::new();
    for (k, v) in aliases {
        alias_map.insert(k.to_string(), v.to_string());
    }
    let mut configs = TextMap::new();
    configs.insert(
        String::new(),
        BundlerConfig {
            config_dir: String::new(),
            aliases: alias_map,
            modules: Vec::new(),
        },
    );
    TypeScriptResolver::new().with_bundler_configs(configs)
}

#[test]
fn bundler_alias_resolves() {
    let resolver = make_bundler_resolver(vec![("@", "src")]);
    let known = files_of(&["src/components/Button.tsx"]);
    let import = make_import("@/components/Button");
    let from = CanonicalPath::new("src/app.ts");
    let result = resolver.resolve(&import, &from, &known, None);
    assert_eq!(result, Some(CanonicalPath::new("src/components/Button.tsx")));
}

#[test]
fn bundler_alias_exact_match() {
    let resolver = make_bundler_resolver(vec![("~utils", "src/utils")]);
    let known = files_of(&["src/utils/index.ts"]);
    let import = make_import("~utils");
    let from = CanonicalPath::new("src/app.ts");
    let result = resolver.resolve(&import, &from, &known, None);
    assert_eq!(result, Some(CanonicalPath::new("src/utils/index.ts")));
}

#[test]
fn tsconfig_takes_priority_over_bundler() {
    let mut ts_configs = TextMap::new();
    let mut paths = TextMap::new();
    paths.insert("@/*".to_string(), vec!["lib/*".to_string()]);
    ts_configs.insert(
        String::new(),
        TsConfig {
            config_dir: String::new(),
            base_url: Some(".".to_string()),
            paths,
        },
    );
    let mut bundler_aliases = TextMap::new();
    bundler_aliases.insert("@".to_string(), "src".to_string());
    let mut bundler_configs = TextMap::new();
    bundler_configs.insert(
        String::new(),
        BundlerConfig {
            config_dir: String::new(),
            aliases: bundler_aliases,
            modules: Vec::new(),
        },
    );
    let resolver = TypeScriptResolver::new()
        .with_ts_configs(ts_configs)
        .with_bundler_configs(bundler_configs);
    let known = files_of(&["lib/utils.ts"]);
    let import = make_import("@/utils");
    let from = CanonicalPath::new("src/app.ts");
    let result = resolver.resolve(&import, &from, &known, None);
    assert_eq!(result, Some(CanonicalPath::new("lib/utils.ts")));
}

#[test]
fn bundler_alias_no_match_falls_through() {
    let resolver = make_bundler_resolver(vec![("@", "src")]);
    let known = FileSet::new();
    let import = make_import("lodash");
    let from = CanonicalPath::new("src/app.ts");
    let result = resolver.resolve(&import, &from, &known, None);
    assert_eq!(result, None);
}

#[test]
fn empty_bundler_configs_no_effect() {
    let resolver = TypeScriptResolver::new().with_bundler_configs(TextMap::new());
    assert!(resolver.bundler_configs.is_none());
}
