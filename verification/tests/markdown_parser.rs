use ariadne_graph::parser::markdown::{clean_link, MarkdownParser};
use ariadne_graph::parser::traits::{ImportKind, RawExport, RawImport};
use ariadne_graph::syntax::{parse, Grammar};

fn md_imports(source: &str) -> Vec<RawImport> {
    let tree = parse(Grammar::Markdown, source.as_bytes()).unwrap();
    MarkdownParser::new().extract_imports(&tree)
}

fn md_exports(source: &str) -> Vec<RawExport> {
    let tree = parse(Grammar::Markdown, source.as_bytes()).unwrap();
    MarkdownParser::new().extract_exports(&tree)
}

// ---- Import extraction tests ----

#[test]
fn inline_link() {
    let source = "See [guide](./docs/guide.md) for details.\n";
    let result = md_imports(source);
    assert_eq!(result.len(), 1);
    assert_eq!(result[0].path, "./docs/guide.md");
    assert_eq!(result[0].kind, ImportKind::Link);
}

#[test]
fn image_link() {
    let source = "Logo: ![logo](./assets/logo.png)\n";
    let result = md_imports(source);
    assert_eq!(result.len(), 1);
    assert_eq!(result[0].path, "./assets/logo.png");
}

#[test]
fn link_reference_definition() {
    let source = "[ref1]: ./src/lib.rs \"Library\"\n";
    let result = md_imports(source);
    assert_eq!(result.len(), 1);
    assert_eq!(result[0].path, "./src/lib.rs");
}

#[test]
fn filters_http_urls() {
    let source = "Visit [site](https://example.com) and [other](http://foo.bar).\n";
    let result = md_imports(source);
    assert!(result.is_empty());
}

#[test]
fn filters_mailto_and_data() {
    let source = "Email [us](mailto:hi@example.com). Data [img](data:image/png;base64,abc).\n";
    let result = md_imports(source);
    assert!(result.is_empty());
}

#[test]
fn filters_fragment_only() {
    let source = "See [section](#heading-1) for more.\n";
    let result = md_imports(source);
    assert!(result.is_empty());
}

#[test]
fn strips_fragment_from_path() {
    let source = "See [docs](./README.md#section) for more.\n";
    let result = md_imports(source);
    assert_eq!(result.len(), 1);
    assert_eq!(result[0].path, "./README.md");
}

#[test]
fn strips_query_string() {
    let source = "See [docs](./README.md?v=2) for more.\n";
    let result = md_imports(source);
    assert_eq!(result.len(), 1);
    assert_eq!(result[0].path, "./README.md");
}

#[test]
fn deduplicates_links() {
    let source = "See [a](./foo.md) and [b](./foo.md) and [c](./bar.md).\n";
    let result = md_imports(source);
    assert_eq!(result.len(), 2);
    let paths: Vec<&str> = result.iter().map(|r| r.path.as_str()).collect();
    assert!(paths.contains(&"./foo.md"));
    assert!(paths.contains(&"./bar.md"));
}

#[test]
fn multiple_link_types() {
    let source = "# Project\n\nSee [guide](./docs/guide.md) and ![logo](./assets/logo.png).\n\n[ref]: ./src/lib.rs\n";
    let result = md_imports(source);
    assert_eq!(result.len(), 3);
}

#[test]
fn markdown_empty_source() {
    let result = md_imports("");
    assert!(result.is_empty());
}

#[test]
fn empty_link_destination() {
    let source = "Click [here]() for nothing.\n";
    let result = md_imports(source);
    assert!(result.is_empty());
}

// ---- Export tests ----

#[test]
fn exports_always_empty() {
    let result = md_exports("# Heading\n\nSome content.\n");
    assert!(result.is_empty());
}

// ---- Additional import property tests ----

#[test]
fn relative_path_preserved() {
    let source = "Go to [sibling](../sibling.md) file.\n";
    let result = md_imports(source);
    assert_eq!(result.len(), 1);
    assert_eq!(result[0].path, "../sibling.md");
}

#[test]
fn mixed_valid_and_filtered() {
    let source = "See [local](./local.md) and [ext](https://example.com) and [other](other.md) and [frag](#top).\n";
    let result = md_imports(source);
    assert_eq!(result.len(), 2);
    let paths: Vec<&str> = result.iter().map(|r| r.path.as_str()).collect();
    assert!(paths.contains(&"./local.md"));
    assert!(paths.contains(&"other.md"));
}

#[test]
fn no_links_no_imports() {
    let source = "# Hello World\n\nJust plain text with no links at all.\n";
    let result = md_imports(source);
    assert!(result.is_empty());
}

#[test]
fn import_symbols_empty() {
    let source = "See [guide](guide.md) for details.\n";
    let result = md_imports(source);
    assert_eq!(result.len(), 1);
    assert!(result[0].symbols.is_empty());
}

#[test]
fn import_not_type_only() {
    let source = "See [guide](guide.md) for details.\n";
    let result = md_imports(source);
    assert_eq!(result.len(), 1);
    assert!(!result[0].is_type_only);
}

#[test]
fn link_with_fragment_stripped() {
    let source = "See [section](file.md#section) for more.\n";
    let result = md_imports(source);
    assert_eq!(result.len(), 1);
    assert!(!result[0].path.contains("#section"));
    assert_eq!(result[0].path, "file.md");
}

#[test]
fn imports_come_out_in_text_order() {
    let source = "See [z](./z.md) and [a](./a.md) and [m](<./m.md>).\n";
    let result = md_imports(source);
    let paths: Vec<&str> = result.iter().map(|r| r.path.as_str()).collect();
    assert_eq!(paths, vec!["./a.md", "./m.md", "./z.md"]);
}

#[test]
fn nested_parentheses_in_destination() {
    let source = "See [doc](./a(b).md) here.\n";
    let result = md_imports(source);
    assert_eq!(result.len(), 1);
    assert_eq!(result[0].path, "./a(b).md");
}

#[test]
fn clean_link_cases() {
    let c = |s: &str| clean_link(&s.chars().collect()).map(|v| v.into_iter().collect::<String>());
    assert_eq!(c("  ./a.md  "), Some("./a.md".to_string()));
    assert_eq!(c("<./b.md>"), Some("./b.md".to_string()));
    assert_eq!(c("x.md?y#z"), Some("x.md".to_string()));
    assert_eq!(c("ftp://host/f"), None);
    assert_eq!(c("#top"), None);
    assert_eq!(c("?q"), None);
    assert_eq!(c(""), None);
}
