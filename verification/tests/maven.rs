use ariadne_graph::diagnostic::{DiagnosticCollector, WarningCode};
use ariadne_graph::parser::config::maven::parse_pom_xml;

#[test]
fn test_parse_pom_xml_basic() {
    let mut diag = DiagnosticCollector::new();
    let content = r#"<?xml version="1.0" encoding="UTF-8"?>
<project xmlns="http://maven.apache.org/POM/4.0.0">
<groupId>com.example</groupId>
<artifactId>my-app</artifactId>
<version>1.0.0</version>
<packaging>jar</packaging>
</project>"#;

    let config = parse_pom_xml(content, "pom.xml", &mut diag)
        .expect("should parse basic pom");

    assert_eq!(config.group_id.as_deref(), Some("com.example"));
    assert_eq!(config.artifact_id.as_deref(), Some("my-app"));
    assert_eq!(config.version.as_deref(), Some("1.0.0"));
    assert_eq!(config.packaging.as_deref(), Some("jar"));
    assert!(config.modules.is_empty());
    assert!(config.dependencies.is_empty());
    assert!(config.parent.is_none());
}

#[test]
fn test_parse_pom_xml_with_modules() {
    let mut diag = DiagnosticCollector::new();
    let content = r#"<?xml version="1.0" encoding="UTF-8"?>
<project>
<groupId>com.example</groupId>
<artifactId>parent</artifactId>
<version>1.0.0</version>
<packaging>pom</packaging>
<modules>
    <module>core</module>
    <module>web</module>
    <module>api</module>
</modules>
</project>"#;

    let config = parse_pom_xml(content, "pom.xml", &mut diag)
        .expect("should parse pom with modules");

    assert_eq!(config.modules, vec!["core", "web", "api"]);
}

#[test]
fn test_parse_pom_xml_with_parent() {
    let mut diag = DiagnosticCollector::new();
    let content = r#"<?xml version="1.0" encoding="UTF-8"?>
<project>
<parent>
    <groupId>org.springframework.boot</groupId>
    <artifactId>spring-boot-starter-parent</artifactId>
    <version>3.1.0</version>
    <relativePath>../pom.xml</relativePath>
</parent>
<artifactId>my-service</artifactId>
</project>"#;

    let config = parse_pom_xml(content, "service/pom.xml", &mut diag)
        .expect("should parse pom with parent");

    let parent = config.parent.expect("should have parent ref");
    assert_eq!(parent.group_id, "org.springframework.boot");
    assert_eq!(parent.artifact_id, "spring-boot-starter-parent");
    assert_eq!(parent.version.as_deref(), Some("3.1.0"));
    assert_eq!(parent.relative_path.as_deref(), Some("../pom.xml"));
    assert_eq!(config.artifact_id.as_deref(), Some("my-service"));
}

#[test]
fn test_parse_pom_xml_dependencies() {
    let mut diag = DiagnosticCollector::new();
    let content = r#"<?xml version="1.0" encoding="UTF-8"?>
<project>
<groupId>com.example</groupId>
<artifactId>app</artifactId>
<dependencies>
    <dependency>
        <groupId>org.springframework</groupId>
        <artifactId>spring-core</artifactId>
        <version>6.0.0</version>
    </dependency>
    <dependency>
        <groupId>com.fasterxml.jackson.core</groupId>
        <artifactId>jackson-databind</artifactId>
        <version>2.15.0</version>
        <scope>compile</scope>
    </dependency>
    <dependency>
        <groupId>junit</groupId>
        <artifactId>junit</artifactId>
        <version>4.13.2</version>
        <scope>test</scope>
    </dependency>
</dependencies>
</project>"#;

    let config = parse_pom_xml(content, "pom.xml", &mut diag)
        .expect("should parse pom with dependencies");

    assert_eq!(config.dependencies.len(), 3);

    assert_eq!(config.dependencies[0].group_id, "org.springframework");
    assert_eq!(config.dependencies[0].artifact_id, "spring-core");
    assert_eq!(config.dependencies[0].version.as_deref(), Some("6.0.0"));
    assert!(config.dependencies[0].scope.is_none());

    assert_eq!(
        config.dependencies[1].group_id,
        "com.fasterxml.jackson.core"
    );
    assert_eq!(config.dependencies[1].artifact_id, "jackson-databind");
    assert_eq!(config.dependencies[1].scope.as_deref(), Some("compile"));

    assert_eq!(config.dependencies[2].group_id, "junit");
    assert_eq!(config.dependencies[2].scope.as_deref(), Some("test"));
}

#[test]
fn test_parse_pom_xml_malformed() {
    let mut diag = DiagnosticCollector::new();
    let content = "not xml";

    let result = parse_pom_xml(content, "bad/pom.xml", &mut diag);
    assert!(result.is_none());

    let report = diag.drain();
    assert!(report
        .warnings
        .iter()
        .any(|w| w.code == WarningCode::W039MavenParseError));
}

#[test]
fn pom_build_dirs_and_first_match_wins() {
    let mut diag = DiagnosticCollector::new();
    let content = r#"<project>
    <groupId>  </groupId>
    <groupId>second</groupId>
    <build>
        <sourceDirectory> src/java </sourceDirectory>
        <testSourceDirectory>test/java</testSourceDirectory>
    </build>
    <dependencies>
        <dependency><artifactId>no-group</artifactId></dependency>
    </dependencies>
</project>"#;
    let config = parse_pom_xml(content, "svc/pom.xml", &mut diag).expect("valid xml");
    assert_eq!(config.group_id, None);
    assert_eq!(config.source_directory.as_deref(), Some("src/java"));
    assert_eq!(config.test_source_directory.as_deref(), Some("test/java"));
    assert!(config.dependencies.is_empty());
    assert_eq!(config.config_dir, "svc");
    assert_eq!(config.config_path, "svc/pom.xml");
}
