use ariadne_graph::parser::config::gomod::parse_go_mod;

#[test]
fn standard_go_mod() {
    let content = "module github.com/user/repo\n\ngo 1.21\n";
    let config = parse_go_mod(content).unwrap();
    assert_eq!(config.module, "github.com/user/repo");
}

#[test]
fn go_mod_with_require_replace() {
    let content = r#"module github.com/user/repo

go 1.21

require (
    github.com/pkg/errors v0.9.1
)

replace github.com/old => github.com/new v1.0.0
"#;
    let config = parse_go_mod(content).unwrap();
    assert_eq!(config.module, "github.com/user/repo");
}

#[test]
fn gomod_empty_content() {
    assert!(parse_go_mod("").is_none());
}

#[test]
fn no_module_line() {
    let content = "go 1.21\nrequire github.com/pkg/errors v0.9.1\n";
    assert!(parse_go_mod(content).is_none());
}

#[test]
fn module_with_version_suffix() {
    let content = "module github.com/user/repo/v2\n\ngo 1.21\n";
    let config = parse_go_mod(content).unwrap();
    assert_eq!(config.module, "github.com/user/repo/v2");
}

#[test]
fn module_with_inline_comment() {
    let content = "module github.com/user/repo // main module\n";
    let config = parse_go_mod(content).unwrap();
    assert_eq!(config.module, "github.com/user/repo");
}

#[test]
fn module_line_indented_and_crlf() {
    let content = "  module   example.com/x  \r\ngo 1.21\r\n";
    assert_eq!(parse_go_mod(content).unwrap().module, "example.com/x");
}

#[test]
fn empty_module_line_skipped_for_later_one() {
    let content = "module // nothing\nmodule real/path\n";
    assert_eq!(parse_go_mod(content).unwrap().module, "real/path");
}
