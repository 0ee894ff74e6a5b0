use ariadne_graph::diagnostic::{DiagnosticCollector, WarningCode};
use ariadne_graph::parser::config::gradle::{
    dependency_from_captures, parse_build_gradle, parse_scope, parse_settings_gradle, GradleDepScope,
};

#[test]
fn test_parse_build_gradle_groovy() {
    let mut diag = DiagnosticCollector::new();
    let content = r#"
group = 'com.example'
version = '1.0.0'

dependencies {
    implementation 'org.springframework.boot:spring-boot-starter-web:3.1.0'
    testImplementation 'junit:junit:4.13.2'
}
"#;
    let config = parse_build_gradle(content, "project", &mut diag).expect("should parse groovy");

    assert_eq!(config.group.as_deref(), Some("com.example"));
    assert_eq!(config.version.as_deref(), Some("1.0.0"));
    assert_eq!(config.dependencies.len(), 2);
    assert_eq!(config.dependencies[0].group, "org.springframework.boot");
    assert_eq!(config.dependencies[0].artifact, "spring-boot-starter-web");
    assert_eq!(config.dependencies[0].version.as_deref(), Some("3.1.0"));
    assert_eq!(config.dependencies[0].scope, GradleDepScope::Implementation);
    assert_eq!(config.dependencies[1].group, "junit");
    assert_eq!(config.dependencies[1].artifact, "junit");
    assert_eq!(config.dependencies[1].scope, GradleDepScope::TestImplementation);
    assert!(!config.is_android);
}

#[test]
fn test_parse_build_gradle_kotlin_dsl() {
    let mut diag = DiagnosticCollector::new();
    let content = r#"
group = "com.example"
version = "2.0.0"

dependencies {
    implementation("org.jetbrains.kotlin:kotlin-stdlib:1.9.0")
    api("com.google.guava:guava:32.1.2-jre")
}
"#;
    let config = parse_build_gradle(content, "project", &mut diag).expect("should parse kotlin dsl");

    assert_eq!(config.group.as_deref(), Some("com.example"));
    assert_eq!(config.version.as_deref(), Some("2.0.0"));
    assert_eq!(config.dependencies.len(), 2);
    assert_eq!(config.dependencies[0].group, "org.jetbrains.kotlin");
    assert_eq!(config.dependencies[0].artifact, "kotlin-stdlib");
    assert_eq!(config.dependencies[0].version.as_deref(), Some("1.9.0"));
    assert_eq!(config.dependencies[0].scope, GradleDepScope::Implementation);
    assert_eq!(config.dependencies[1].group, "com.google.guava");
    assert_eq!(config.dependencies[1].artifact, "guava");
    assert_eq!(config.dependencies[1].scope, GradleDepScope::Api);
}

#[test]
fn test_parse_settings_gradle() {
    let content = r#"
rootProject.name = 'my-app'
include ':core'
include ':web'
"#;
    let subprojects = parse_settings_gradle(content);

    assert_eq!(subprojects.len(), 2);
    assert_eq!(subprojects[0].name, "core");
    assert_eq!(subprojects[0].path, "core");
    assert_eq!(subprojects[1].name, "web");
    assert_eq!(subprojects[1].path, "web");
}

#[test]
fn test_parse_build_gradle_android() {
    let mut diag = DiagnosticCollector::new();
    let content = r#"
apply plugin: 'com.android.application'

android {
    compileSdkVersion 33
}

dependencies {
    implementation 'androidx.appcompat:appcompat:1.6.1'
}
"#;
    let config = parse_build_gradle(content, "app", &mut diag).expect("should parse android gradle");

    assert!(config.is_android);
    assert_eq!(config.dependencies.len(), 1);
    assert_eq!(config.dependencies[0].group, "androidx.appcompat");
}

#[test]
fn test_parse_build_gradle_malformed_returns_none() {
    let mut diag = DiagnosticCollector::new();
    let content = "{{{{bad";
    let result = parse_build_gradle(content, "bad", &mut diag);
    drop(result);
    drop(diag);

    let mut diag2 = DiagnosticCollector::new();
    let broken = &"}".repeat(100);
    let result2 = parse_build_gradle(broken, "bad", &mut diag2);
    assert!(result2.is_none());

    let report = diag2.drain();
    assert!(report.warnings.iter().any(|w| w.code == WarningCode::W038GradleParseError));
}

#[test]
fn gradle_open_braces_still_parse() {
    let mut diag = DiagnosticCollector::new();
    let config = parse_build_gradle("{{{{bad", "bad", &mut diag).expect("unclosed braces are tolerated");
    assert_eq!(config.config_dir, "bad");
    assert!(config.dependencies.is_empty());
    assert!(!diag.has_code(WarningCode::W038GradleParseError));
}

#[test]
fn gradle_scope_names() {
    assert_eq!(parse_scope("implementation"), GradleDepScope::Implementation);
    assert_eq!(parse_scope("api"), GradleDepScope::Api);
    assert_eq!(parse_scope("testImplementation"), GradleDepScope::TestImplementation);
    assert_eq!(parse_scope("compileOnly"), GradleDepScope::CompileOnly);
    assert_eq!(parse_scope("runtimeOnly"), GradleDepScope::RuntimeOnly);
}

#[test]
fn gradle_dependency_from_captures_needs_group_and_artifact() {
    let full = vec![
        Some("implementation 'a:b:1'".to_string()),
        Some("implementation".to_string()),
        Some("a".to_string()),
        Some("b".to_string()),
        Some("1".to_string()),
    ];
    let dep = dependency_from_captures(&full).expect("complete captures");
    assert_eq!(dep.group, "a");
    assert_eq!(dep.artifact, "b");
    assert_eq!(dep.version.as_deref(), Some("1"));
    let missing = vec![Some("x".to_string()), Some("api".to_string()), None, Some("b".to_string()), None];
    assert!(dependency_from_captures(&missing).is_none());
}
