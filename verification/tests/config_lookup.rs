use ariadne_graph::model::TextMap;
use ariadne_graph::parser::config::find_nearest_tsconfig;
use ariadne_graph::parser::config::tsconfig::TsConfig;

fn ts(dir: &str, base_url: Option<&str>) -> TsConfig {
    TsConfig {
        config_dir: dir.to_string(),
        base_url: base_url.map(|s| s.to_string()),
        paths: TextMap::new(),
    }
}

#[test]
fn find_nearest_tsconfig_exact_match() {
    let mut configs = TextMap::new();
    configs.insert("/project/src".to_string(), ts("/project/src", None));
    let result = find_nearest_tsconfig("/project/src", &configs);
    assert!(result.is_some());
}

#[test]
fn find_nearest_tsconfig_walks_up() {
    let mut configs = TextMap::new();
    configs.insert("/project".to_string(), ts("/project", Some(".")));
    let result = find_nearest_tsconfig("/project/src/components", &configs);
    assert!(result.is_some());
    assert_eq!(result.unwrap().base_url.as_deref(), Some("."));
}

#[test]
fn find_nearest_tsconfig_no_match() {
    let configs: TextMap<TsConfig> = TextMap::new();
    let result = find_nearest_tsconfig("/other/path", &configs);
    assert!(result.is_none());
}

#[test]
fn find_nearest_tsconfig_prefers_nearest() {
    let mut configs = TextMap::new();
    configs.insert("/project".to_string(), ts("/project", Some("root")));
    configs.insert("/project/packages/app".to_string(), ts("/project/packages/app", Some("nested")));
    let result = find_nearest_tsconfig("/project/packages/app/src", &configs);
    assert!(result.is_some());
    assert_eq!(result.unwrap().base_url.as_deref(), Some("nested"));
}

#[test]
fn find_nearest_reaches_root_config() {
    let mut configs = TextMap::new();
    configs.insert(String::new(), ts("", Some("top")));
    let result = find_nearest_tsconfig("a/b/c", &configs);
    assert_eq!(result.unwrap().base_url.as_deref(), Some("top"));
}

#[test]
fn find_nearest_tsconfig_compares_components() {
    let mut configs = TextMap::new();
    configs.insert("src/".to_string(), ts("src", Some("trailing")));
    let result = find_nearest_tsconfig("src", &configs);
    assert_eq!(result.unwrap().base_url.as_deref(), Some("trailing"));
    let deeper = find_nearest_tsconfig("src//lib/./x", &configs);
    assert_eq!(deeper.unwrap().base_url.as_deref(), Some("trailing"));
}

#[test]
fn find_nearest_tsconfig_relative_reaches_empty_dir() {
    let mut configs = TextMap::new();
    configs.insert("".to_string(), ts("", Some("root")));
    let result = find_nearest_tsconfig("a/b", &configs);
    assert_eq!(result.unwrap().base_url.as_deref(), Some("root"));
    assert!(find_nearest_tsconfig("/a/b", &configs).is_none());
}
