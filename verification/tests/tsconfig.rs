use ariadne_graph::model::TextMap;
use ariadne_graph::parser::config::tsconfig::{match_wildcard, resolve_path_alias, TsConfig};

fn config(dir: &str, base_url: Option<&str>, paths: Vec<(&str, Vec<&str>)>) -> TsConfig {
    let mut map = TextMap::new();
    for (k, v) in paths {
        map.insert(k.to_string(), v.into_iter().map(|s| s.to_string()).collect());
    }
    TsConfig {
        config_dir: dir.to_string(),
        base_url: base_url.map(|s| s.to_string()),
        paths: map,
    }
}

#[test]
fn paths_with_wildcard_substitution() {
    let config = config("/project", Some("."), vec![("@/*", vec!["src/*"])]);
    let results = resolve_path_alias("@/components/Button", &config);
    assert_eq!(results, vec!["/project/./src/components/Button".to_string()]);
}

#[test]
fn base_url_resolution() {
    let config = config("/project", Some("src"), vec![]);
    let results = resolve_path_alias("utils/helper", &config);
    assert_eq!(results, vec!["/project/src/utils/helper".to_string()]);
}

#[test]
fn base_url_without_paths_fallback() {
    let config = config("/project", Some("."), vec![]);
    let results = resolve_path_alias("components/Button", &config);
    assert_eq!(results, vec!["/project/./components/Button".to_string()]);
}

#[test]
fn no_base_url_no_paths_returns_empty() {
    let config = config("/project", None, vec![]);
    let results = resolve_path_alias("something", &config);
    assert!(results.is_empty());
}

#[test]
fn multiple_targets_for_same_alias() {
    let config = config("/project", Some("."), vec![("@lib/*", vec!["lib/*", "vendor/*"])]);
    let results = resolve_path_alias("@lib/foo", &config);
    assert_eq!(
        results,
        vec!["/project/./lib/foo".to_string(), "/project/./vendor/foo".to_string()]
    );
}

#[test]
fn exact_match_pattern() {
    let config = config(
        "/project",
        Some("."),
        vec![("jquery", vec!["vendor/jquery/dist/jquery.js"])],
    );
    let results = resolve_path_alias("jquery", &config);
    assert_eq!(results, vec!["/project/./vendor/jquery/dist/jquery.js".to_string()]);
}

#[test]
fn longer_pattern_takes_priority() {
    let config = config(
        "/project",
        Some("."),
        vec![("@/*", vec!["src/*"]), ("@/utils/*", vec!["src/shared/utils/*"])],
    );
    let results = resolve_path_alias("@/utils/foo", &config);
    assert_eq!(results, vec!["/project/./src/shared/utils/foo".to_string()]);
}

#[test]
fn wildcard_match_captures_segment() {
    assert_eq!(match_wildcard("@/*", "@/foo/bar"), Some("foo/bar".to_string()));
}

#[test]
fn wildcard_no_match() {
    assert_eq!(match_wildcard("@/*", "~/foo"), None);
}

#[test]
fn exact_match_returns_empty_capture() {
    assert_eq!(match_wildcard("jquery", "jquery"), Some(String::new()));
}

#[test]
fn exact_match_no_match() {
    assert_eq!(match_wildcard("jquery", "lodash"), None);
}

#[test]
fn replace_every_star_in_target() {
    let config = config("", None, vec![("@x/*", vec!["a/*/b/*"])]);
    let results = resolve_path_alias("@x/q", &config);
    assert_eq!(results, vec!["a/q/b/q".to_string()]);
}
