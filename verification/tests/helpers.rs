use ariadne_graph::parser::helpers::strip_quotes;

#[test]
fn strip_double_quotes() {
    assert_eq!(strip_quotes("\"hello\""), "hello");
}

#[test]
fn strip_single_quotes() {
    assert_eq!(strip_quotes("'hello'"), "hello");
}

#[test]
fn strip_backtick_quotes() {
    assert_eq!(strip_quotes("`hello`"), "hello");
}

#[test]
fn no_quotes_unchanged() {
    assert_eq!(strip_quotes("hello"), "hello");
}

#[test]
fn mismatched_quotes_unchanged() {
    assert_eq!(strip_quotes("\"hello'"), "\"hello'");
}

#[test]
fn empty_string_unchanged() {
    assert_eq!(strip_quotes(""), "");
}

#[test]
fn single_char_unchanged() {
    assert_eq!(strip_quotes("\""), "\"");
}
