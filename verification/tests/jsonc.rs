use ariadne_graph::parser::config::jsonc::strip_jsonc_comments;

#[test]
fn plain_json_passthrough() {
    let input = r#"{"key": "value", "num": 42}"#;
    assert_eq!(strip_jsonc_comments(input), input);
}

#[test]
fn single_line_comment_removal() {
    let input = "{\n  // this is a comment\n  \"key\": \"value\"\n}";
    let expected = "{\n  \n  \"key\": \"value\"\n}";
    assert_eq!(strip_jsonc_comments(input), expected);
}

#[test]
fn block_comment_removal() {
    let input = r#"{"key": /* comment */ "value"}"#;
    let expected = r#"{"key":  "value"}"#;
    assert_eq!(strip_jsonc_comments(input), expected);
}

#[test]
fn comments_inside_strings_preserved() {
    let input = r#"{"key": "value // not a comment", "k2": "/* also not */"}"#;
    assert_eq!(strip_jsonc_comments(input), input);
}

#[test]
fn trailing_comma_removal() {
    let input = r#"{"a": 1, "b": 2,}"#;
    let expected = r#"{"a": 1, "b": 2}"#;
    assert_eq!(strip_jsonc_comments(input), expected);
}

#[test]
fn trailing_comma_in_array() {
    let input = r#"[1, 2, 3,]"#;
    let expected = r#"[1, 2, 3]"#;
    assert_eq!(strip_jsonc_comments(input), expected);
}

#[test]
fn mixed_comments_and_strings() {
    let input = r#"{
  // comment
  "url": "https://example.com", // trailing
  /* block */
  "pattern": "src/**/*.ts",
}"#;
    let result = strip_jsonc_comments(input);
    let parsed: serde_json::Value = serde_json::from_str(&result).unwrap();
    assert_eq!(parsed["url"], "https://example.com");
    assert_eq!(parsed["pattern"], "src/**/*.ts");
}

#[test]
fn jsonc_empty_input() {
    assert_eq!(strip_jsonc_comments(""), "");
}

#[test]
fn escaped_quotes_in_strings() {
    let input = r#"{"key": "value with \" escaped // quote"}"#;
    assert_eq!(strip_jsonc_comments(input), input);
}

#[test]
fn unterminated_block_comment_keeps_last_byte() {
    assert_eq!(strip_jsonc_comments("[1] /* open"), "[1] n");
}

#[test]
fn comma_before_whitespace_and_brace_removed_whitespace_kept() {
    assert_eq!(strip_jsonc_comments("{\"a\": 1,\n}"), "{\"a\": 1\n}");
}

#[test]
fn non_ascii_text_kept() {
    let input = "{\"name\": \"café ☕\", /* ü */ \"k\": [1, 2,]}";
    assert_eq!(strip_jsonc_comments(input), "{\"name\": \"café ☕\",  \"k\": [1, 2]}");
}
