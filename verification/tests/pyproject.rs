use ariadne_graph::parser::config::pyproject::parse_pyproject;

#[test]
fn pyproject_with_src_layout() {
    let content = r#"
[project]
name = "mypackage"

[tool.setuptools.packages.find]
where = ["src"]
"#;
    let config = parse_pyproject(content).unwrap();
    assert!(config.src_layout);
    assert_eq!(config.package_name.as_deref(), Some("mypackage"));
}

#[test]
fn pyproject_without_src_layout() {
    let content = r#"
[project]
name = "mypackage"
version = "1.0.0"

[build-system]
requires = ["setuptools"]
"#;
    let config = parse_pyproject(content).unwrap();
    assert!(!config.src_layout);
}

#[test]
fn pyproject_with_package_name() {
    let content = r#"
[project]
name = "my-cool-package"
version = "0.1.0"
"#;
    let config = parse_pyproject(content).unwrap();
    assert_eq!(config.package_name.as_deref(), Some("my-cool-package"));
}

#[test]
fn pyproject_empty_content() {
    assert!(parse_pyproject("").is_none());
}

#[test]
fn whitespace_only() {
    assert!(parse_pyproject("   \n\n  ").is_none());
}

#[test]
fn no_project_section() {
    let content = r#"
[build-system]
requires = ["setuptools"]
build-backend = "setuptools.build_meta"
"#;
    let config = parse_pyproject(content).unwrap();
    assert!(!config.src_layout);
    assert!(config.package_name.is_none());
}

#[test]
fn single_quoted_src_and_name() {
    let content = "[project]\nname = 'pkg'\n[tool.setuptools.packages.find]\nwhere = ['src']\n";
    let config = parse_pyproject(content).unwrap();
    assert!(config.src_layout);
    assert_eq!(config.package_name.as_deref(), Some("pkg"));
}

#[test]
fn name_outside_project_section_ignored() {
    let content = "[tool.poetry]\nname = \"other\"\n";
    assert!(parse_pyproject(content).unwrap().package_name.is_none());
}
