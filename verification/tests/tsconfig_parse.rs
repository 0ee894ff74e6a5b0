use ariadne_graph::diagnostic::{DiagnosticCollector, WarningCode};
use ariadne_graph::parser::config::tsconfig::{
    parse_tsconfig, parse_tsconfig_with_extends, resolve_extends_path, ExtendsChain, TsLoad,
};

fn loader(files: Vec<(&'static str, &'static str)>) -> impl Fn(String) -> TsLoad {
    move |p: String| {
        let canonical = p.replace("/./", "/");
        match files.iter().find(|(name, _)| *name == canonical) {
            Some((_, content)) => TsLoad::Loaded { canonical, content: content.to_string() },
            None => TsLoad::Missing,
        }
    }
}

#[test]
fn basic_tsconfig_with_paths() {
    let mut diag = DiagnosticCollector::new();
    let content = r#"{
            "compilerOptions": {
                "baseUrl": ".",
                "paths": {
                    "@/*": ["src/*"],
                    "@utils/*": ["src/utils/*"]
                }
            }
        }"#;
    let config = parse_tsconfig(content, "/project", &mut diag).unwrap();
    assert_eq!(config.base_url.as_deref(), Some("."));
    assert_eq!(config.paths.len(), 2);
    assert_eq!(config.paths.get_str("@/*").unwrap(), &vec!["src/*".to_string()]);
}

#[test]
fn jsonc_comments_in_tsconfig() {
    let mut diag = DiagnosticCollector::new();
    let content = r#"{
            // TypeScript config
            "compilerOptions": {
                "baseUrl": ".", /* root-relative */
                "paths": {
                    "@/*": ["src/*"],
                }
            }
        }"#;
    let config = parse_tsconfig(content, "/project", &mut diag).unwrap();
    assert_eq!(config.base_url.as_deref(), Some("."));
    assert_eq!(config.paths.len(), 1);
}

#[test]
fn empty_paths_no_aliases() {
    let mut diag = DiagnosticCollector::new();
    let content = r#"{
            "compilerOptions": {
                "baseUrl": ".",
                "paths": {}
            }
        }"#;
    let config = parse_tsconfig(content, "/project", &mut diag).unwrap();
    assert!(config.paths.is_empty());
}

#[test]
fn missing_tsconfig_returns_none() {
    let mut diag = DiagnosticCollector::new();
    let result = parse_tsconfig_with_extends("/nonexistent/tsconfig.json", loader(vec![]), &mut diag);
    assert!(result.is_none());
    let report = diag.drain();
    assert!(report.warnings.iter().any(|w| w.code == WarningCode::W033ExtendsNotFound));
}

#[test]
fn parse_error_returns_none() {
    let mut diag = DiagnosticCollector::new();
    let content = "this is not json at all";
    let result = parse_tsconfig(content, "/project", &mut diag);
    assert!(result.is_none());
    let report = diag.drain();
    assert!(report.warnings.iter().any(|w| w.code == WarningCode::W030ConfigParseError));
}

#[test]
fn extends_chain_with_tempdir() {
    let parent_content = r#"{
            "compilerOptions": {
                "baseUrl": ".",
                "paths": {
                    "@parent/*": ["parent-src/*"]
                }
            }
        }"#;
    let child_content = r#"{
            "extends": "./tsconfig.base.json",
            "compilerOptions": {
                "paths": {
                    "@child/*": ["child-src/*"]
                }
            }
        }"#;
    let files = vec![("/tmp/p/tsconfig.base.json", parent_content), ("/tmp/p/tsconfig.json", child_content)];
    let mut diag = DiagnosticCollector::new();
    let config = parse_tsconfig_with_extends("/tmp/p/tsconfig.json", loader(files), &mut diag).unwrap();
    assert!(config.paths.contains_key("@parent/*"));
    assert!(config.paths.contains_key("@child/*"));
    assert_eq!(config.base_url.as_deref(), Some("."));
}

#[test]
fn circular_extends_detection() {
    let a_content = r#"{
            "extends": "./b.json",
            "compilerOptions": {
                "paths": { "@a/*": ["a/*"] }
            }
        }"#;
    let b_content = r#"{
            "extends": "./a.json",
            "compilerOptions": {
                "paths": { "@b/*": ["b/*"] }
            }
        }"#;
    let files = vec![("/tmp/c/a.json", a_content), ("/tmp/c/b.json", b_content)];
    let mut diag = DiagnosticCollector::new();
    let config = parse_tsconfig_with_extends("/tmp/c/a.json", loader(files), &mut diag);
    assert!(config.is_some());
    let report = diag.drain();
    assert!(report.warnings.iter().any(|w| w.code == WarningCode::W031CircularExtends));
}

#[test]
fn no_compiler_options() {
    let mut diag = DiagnosticCollector::new();
    let content = r#"{ "include": ["src"] }"#;
    let config = parse_tsconfig(content, "/project", &mut diag).unwrap();
    assert!(config.base_url.is_none());
    assert!(config.paths.is_empty());
}

#[test]
fn paths_non_array_value_warns_w032() {
    let mut diag = DiagnosticCollector::new();
    let content = r#"{ "compilerOptions": { "paths": { "@x/*": "x/*", "@y/*": [1, "y/*"], "@z/*": [] } } }"#;
    let config = parse_tsconfig(content, "/project", &mut diag).unwrap();
    assert!(!config.paths.contains_key("@x/*"));
    assert_eq!(config.paths.get_str("@y/*").unwrap(), &vec!["y/*".to_string()]);
    assert!(!config.paths.contains_key("@z/*"));
    assert!(diag.has_code(WarningCode::W032InvalidPathPattern));
}

#[test]
fn child_paths_override_parent_paths() {
    let parent = r#"{ "compilerOptions": { "baseUrl": "base", "paths": { "@s/*": ["parent/*"] } } }"#;
    let child = r#"{ "extends": "./parent", "compilerOptions": { "baseUrl": "child", "paths": { "@s/*": ["child/*"] } } }"#;
    let files = vec![("/w/parent.json", parent), ("/w/tsconfig.json", child)];
    let mut diag = DiagnosticCollector::new();
    let config = parse_tsconfig_with_extends("/w/tsconfig.json", loader(files), &mut diag).unwrap();
    assert_eq!(config.config_dir, "/w");
    assert_eq!(config.base_url.as_deref(), Some("child"));
    assert_eq!(config.paths.get_str("@s/*").unwrap(), &vec!["child/*".to_string()]);
}

#[test]
fn extends_chain_stops_at_depth_limit() {
    let mut chain = ExtendsChain::new("/d/t0.json");
    let mut diag = DiagnosticCollector::new();
    let mut n = 0;
    while let Some(_p) = chain.pending() {
        let content = format!("{{ \"extends\": \"./t{}\" }}", n + 1);
        chain.feed(TsLoad::Loaded { canonical: format!("/d/t{}.json", n), content }, &mut diag);
        n += 1;
    }
    assert_eq!(n, 10);
    assert!(diag.has_code(WarningCode::W031CircularExtends));
    assert!(chain.finish().is_some());
}

#[test]
fn extends_path_gets_json_extension() {
    let r = resolve_extends_path(&"dir".chars().collect(), &"./base".chars().collect());
    assert_eq!(r.into_iter().collect::<String>(), "dir/./base.json");
    let r2 = resolve_extends_path(&"dir".chars().collect(), &"cfg.json".chars().collect());
    assert_eq!(r2.into_iter().collect::<String>(), "dir/cfg.json");
}
