use ariadne_graph::diagnostic::{DiagnosticCollector, WarningCode};
use ariadne_graph::parser::config::turbo::{parse_turbo_config, TurboConfig};

fn parse(source: &str) -> Option<TurboConfig> {
    let mut diag = DiagnosticCollector::new();
    parse_turbo_config(source.as_bytes(), "turbo.json", &mut diag)
}

#[test]
fn turbo_v1_pipeline() {
    let source = r#"{
  "pipeline": {
    "build": {
      "dependsOn": ["^build"],
      "outputs": ["dist/**", ".next/**"]
    },
    "test": {
      "dependsOn": ["build"]
    },
    "lint": {}
  }
}"#;
    let config = parse(source).unwrap();
    assert_eq!(config.pipeline.len(), 3);

    let build = config.pipeline.get_str("build").unwrap();
    assert_eq!(build.depends_on, vec!["^build"]);
    assert_eq!(build.outputs, vec![".next/**", "dist/**"]);

    let test = config.pipeline.get_str("test").unwrap();
    assert_eq!(test.depends_on, vec!["build"]);
    assert!(test.outputs.is_empty());

    let lint = config.pipeline.get_str("lint").unwrap();
    assert!(lint.depends_on.is_empty());
    assert!(lint.outputs.is_empty());
}

#[test]
fn turbo_v2_tasks() {
    let source = r#"{
  "tasks": {
    "build": {
      "dependsOn": ["^build"],
      "outputs": [".next/**"]
    }
  }
}"#;
    let config = parse(source).unwrap();
    assert_eq!(config.pipeline.len(), 1);
    assert!(config.pipeline.contains_key("build"));
}

#[test]
fn turbo_empty_pipeline_returns_none() {
    let source = r#"{ "pipeline": {} }"#;
    assert!(parse(source).is_none());
}

#[test]
fn turbo_invalid_json_emits_w047() {
    let mut diag = DiagnosticCollector::new();
    let result = parse_turbo_config(b"{ invalid json }", "turbo.json", &mut diag);
    assert!(result.is_none());
    let report = diag.drain();
    assert!(report.warnings.iter().any(|w| w.code == WarningCode::W047TurboConfigParseError));
}

#[test]
fn turbo_depends_on_sorted() {
    let source = r#"{
  "pipeline": {
    "deploy": {
      "dependsOn": ["test", "lint", "build"]
    }
  }
}"#;
    let config = parse(source).unwrap();
    assert_eq!(config.pipeline.get_str("deploy").unwrap().depends_on, vec!["build", "lint", "test"]);
}

#[test]
fn turbo_keeps_repeats_and_skips_non_objects() {
    let source = r#"{
  // comment
  "tasks": { "a": { "outputs": ["z", "a", "z", 3] }, "b": 1, },
  "pipeline": { "ignored": {} }
}"#;
    let config = parse(source).unwrap();
    assert_eq!(config.pipeline.len(), 1);
    assert_eq!(config.pipeline.get_str("a").unwrap().outputs, vec!["a", "z", "z"]);
}

#[test]
fn turbo_non_utf8_returns_none_silently() {
    let mut diag = DiagnosticCollector::new();
    assert!(parse_turbo_config(&[0xff, 0xfe], "dir/turbo.json", &mut diag).is_none());
    assert!(!diag.has_code(WarningCode::W047TurboConfigParseError));
}

#[test]
fn turbo_config_dir_is_parent() {
    let mut diag = DiagnosticCollector::new();
    let config = parse_turbo_config(br#"{"tasks":{"t":{}}}"#, "apps/web/turbo.json", &mut diag).unwrap();
    assert_eq!(config.config_dir, "apps/web");
}
