use ariadne_graph::diagnostic::{DiagnosticCollector, WarningCode};
use ariadne_graph::json::JsonValue;
use ariadne_graph::parser::config::tsconfig::tsconfig_from_doc;
use ariadne_graph::parser::config::turbo::turbo_from_doc;

fn s(x: &str) -> JsonValue {
    JsonValue::Str(x.to_string())
}

fn obj(es: Vec<(&str, JsonValue)>) -> JsonValue {
    JsonValue::Object(es.into_iter().map(|(k, v)| (k.to_string(), v)).collect())
}

#[test]
fn tsconfig_doc_gives_base_url_and_paths() {
    let mut diag = DiagnosticCollector::new();
    let doc = obj(vec![(
        "compilerOptions",
        obj(vec![
            ("baseUrl", s("src")),
            ("paths", obj(vec![("@app/*", JsonValue::Array(vec![s("app/*")])), ("@bad/*", s("bad/*"))])),
        ]),
    )]);
    let c = tsconfig_from_doc(&doc, "web", &mut diag);
    assert_eq!(c.config_dir, "web");
    assert_eq!(c.base_url.as_deref(), Some("src"));
    assert_eq!(c.paths.get_str("@app/*").unwrap(), &vec!["app/*".to_string()]);
    assert!(!c.paths.contains_key("@bad/*"));
    assert!(diag.has_code(WarningCode::W032InvalidPathPattern));
}

#[test]
fn tsconfig_doc_without_options_is_empty() {
    let mut diag = DiagnosticCollector::new();
    let c = tsconfig_from_doc(&obj(vec![]), "", &mut diag);
    assert!(c.base_url.is_none());
    assert!(c.paths.is_empty());
    assert!(!diag.has_code(WarningCode::W032InvalidPathPattern));
}

#[test]
fn turbo_doc_reads_tasks_before_pipeline() {
    let doc = obj(vec![
        ("pipeline", obj(vec![("old", obj(vec![]))])),
        ("tasks", obj(vec![("build", obj(vec![("dependsOn", JsonValue::Array(vec![s("lint"), s("^build")]))]))])),
    ]);
    let c = turbo_from_doc(&doc, "apps/web/turbo.json").unwrap();
    assert_eq!(c.config_dir, "apps/web");
    assert!(c.pipeline.get_str("old").is_none());
    assert_eq!(c.pipeline.get_str("build").unwrap().depends_on, vec!["^build", "lint"]);
}

#[test]
fn turbo_doc_without_tasks_is_none() {
    assert!(turbo_from_doc(&JsonValue::Null, "turbo.json").is_none());
    assert!(turbo_from_doc(&obj(vec![("tasks", obj(vec![("x", s("y"))]))]), "turbo.json").is_none());
}
