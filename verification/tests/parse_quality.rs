use ariadne_graph::syntax::{outcome_of, parse, parse_has_error, Grammar, ParseQuality};

#[test]
fn clean_source_is_clean() {
    let src = b"export const x = 1;\nfunction f() { return x; }\n";
    let t = parse(Grammar::TypeScript, src).expect("tree");
    assert!(!parse_has_error(Grammar::TypeScript, src));
    assert_eq!(outcome_of(&t), ParseQuality::Clean);
}

#[test]
fn source_of_errors_only_fails() {
    let src = b")))";
    let t = parse(Grammar::TypeScript, src).expect("tree");
    assert!(parse_has_error(Grammar::TypeScript, src));
    assert_eq!(outcome_of(&t), ParseQuality::Failed);
}

#[test]
fn parsed_tree_keeps_source() {
    let src = b"{\"a\": [1, 2]}";
    let t = parse(Grammar::Json, src).expect("tree");
    assert_eq!(t.source_text(), "{\"a\": [1, 2]}");
    assert!(t.len() > 1);
}
