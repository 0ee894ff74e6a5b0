use ariadne_graph::parser::traits::{RawExport, RawImport};
use ariadne_graph::parser::typescript::TypeScriptParser;
use ariadne_graph::syntax::{parse, parse_has_error, Grammar};

fn ts_imports(source: &str) -> Vec<RawImport> {
    let tree = parse(Grammar::TypeScript, source.as_bytes()).unwrap();
    TypeScriptParser::new().extract_imports(&tree)
}

fn ts_exports(source: &str) -> Vec<RawExport> {
    let tree = parse(Grammar::TypeScript, source.as_bytes()).unwrap();
    TypeScriptParser::new().extract_exports(&tree)
}

fn tsx_clean(source: &str) -> bool {
    !parse_has_error(Grammar::Tsx, source.as_bytes())
}

fn tsx_imports(source: &str) -> Vec<RawImport> {
    let tree = parse(Grammar::Tsx, source.as_bytes()).unwrap();
    TypeScriptParser::new().extract_imports(&tree)
}

fn tsx_exports(source: &str) -> Vec<RawExport> {
    let tree = parse(Grammar::Tsx, source.as_bytes()).unwrap();
    TypeScriptParser::new().extract_exports(&tree)
}

#[test]
fn ts_import_named() {
    let result = ts_imports("import { foo, bar } from './mod';");
    assert_eq!(result.len(), 1);
    assert_eq!(result[0].path, "./mod");
    assert!(result[0].symbols.contains(&"foo".to_string()));
    assert!(result[0].symbols.contains(&"bar".to_string()));
}

#[test]
fn ts_import_default() {
    let result = ts_imports("import React from 'react';");
    assert_eq!(result.len(), 1);
    assert_eq!(result[0].path, "react");
    assert!(result[0].symbols.contains(&"React".to_string()));
}

#[test]
fn ts_import_namespace() {
    let result = ts_imports("import * as utils from './utils';");
    assert_eq!(result.len(), 1);
    assert_eq!(result[0].path, "./utils");
    assert!(result[0].symbols.iter().any(|s| s.contains("utils")));
}

#[test]
fn ts_import_side_effect() {
    let result = ts_imports("import './side-effect';");
    assert_eq!(result.len(), 1);
    assert_eq!(result[0].path, "./side-effect");
    assert!(result[0].symbols.is_empty());
}

#[test]
fn ts_require_call() {
    let result = ts_imports("const fs = require('fs');");
    assert_eq!(result.len(), 1);
    assert_eq!(result[0].path, "fs");
}

#[test]
fn ts_import_type_only() {
    let result = ts_imports("import type { Foo } from './types';");
    assert_eq!(result.len(), 1);
    assert!(result[0].is_type_only);
    assert_eq!(result[0].path, "./types");
}

#[test]
fn ts_empty_source_no_imports() {
    let result = ts_imports("");
    assert!(result.is_empty());
}

#[test]
fn ts_malformed_no_crash() {
    let result = ts_imports("import from;");
    let _ = result;
}

#[test]
fn ts_export_named() {
    let result = ts_exports("export { foo, bar };");
    assert_eq!(result.len(), 2);
    let names: Vec<&str> = result.iter().map(|e| e.name.as_str()).collect();
    assert!(names.contains(&"foo"));
    assert!(names.contains(&"bar"));
    assert!(!result[0].is_re_export);
}

#[test]
fn ts_export_re_export() {
    let result = ts_exports("export { foo } from './other';");
    assert_eq!(result.len(), 1);
    assert_eq!(result[0].name, "foo");
    assert!(result[0].is_re_export);
    assert_eq!(result[0].source.as_deref(), Some("./other"));
}

#[test]
fn ts_export_star() {
    let result = ts_exports("export * from './barrel';");
    assert_eq!(result.len(), 1);
    assert_eq!(result[0].name, "*");
    assert!(result[0].is_re_export);
}

#[test]
fn ts_export_function() {
    let result = ts_exports("export function hello() {}");
    assert_eq!(result.len(), 1);
    assert_eq!(result[0].name, "hello");
}

#[test]
fn ts_export_default() {
    let result = ts_exports("export default function main() {}");
    assert!(result.iter().any(|e| e.name == "default" || e.name == "main"));
}

#[test]
fn ts_export_const() {
    let result = ts_exports("export const FOO = 42;");
    assert_eq!(result.len(), 1);
    assert_eq!(result[0].name, "FOO");
}

#[test]
fn tsx_implicit_jsx_return_inline() {
    let source = "\nimport React from 'react';\nexport const A = () => <div>hello</div>;\n";
    assert!(tsx_clean(source), "TSX implicit JSX return should parse cleanly");
    assert!(tsx_exports(source).iter().any(|e| e.name == "A"));
}

#[test]
fn tsx_implicit_jsx_return_parens_inline() {
    let source = "\nimport React from 'react';\nexport const A = () => (<div>hello</div>);\n";
    assert!(tsx_clean(source), "TSX parens JSX return should parse cleanly");
    assert!(tsx_exports(source).iter().any(|e| e.name == "A"));
}

#[test]
fn tsx_double_braces_with_text_content() {
    let source = "\nimport React from 'react';\nexport const A = () => <div style={{ color: 'red' }}>text</div>;\n";
    assert!(tsx_clean(source), "TSX double braces with text should parse cleanly");
    let imports = tsx_imports(source);
    assert_eq!(imports.len(), 1);
    assert_eq!(imports[0].path, "react");
}

#[test]
fn tsx_double_braces_with_expression_content() {
    let source = "\nimport React from 'react';\nexport const A = () => <div style={{ color: 'red' }}>{42}</div>;\n";
    assert!(tsx_clean(source), "TSX double braces with expression should parse cleanly");
    assert_eq!(tsx_imports(source).len(), 1);
}

#[test]
fn tsx_language_for_ext() {
    let parser = TypeScriptParser::new();
    let tsx_lang = parser.grammar_for_ext("tsx");
    let jsx_lang = parser.grammar_for_ext("jsx");
    let ts_lang = parser.grammar_for_ext("ts");
    assert_eq!(tsx_lang, jsx_lang);
    assert_ne!(ts_lang, tsx_lang);
}

#[test]
fn tsx_generic_arrow_trailing_comma() {
    let source = "\nimport React from 'react';\nexport const Box = <T,>(props: { value: T }) => <div>{String(props.value)}</div>;\n";
    assert!(tsx_clean(source), "generic <T,> arrow should parse cleanly");
    assert!(tsx_exports(source).iter().any(|e| e.name == "Box"));
}

#[test]
fn tsx_generic_multiple_params() {
    let source = "\nimport React from 'react';\nexport const Pair = <A, B>({ a, b }: { a: A; b: B }) => <span>{String(a)}</span>;\n";
    assert!(tsx_clean(source), "generic <A, B> arrow should parse cleanly");
    assert!(tsx_exports(source).iter().any(|e| e.name == "Pair"));
}

#[test]
fn tsx_fragment() {
    let source = "\nimport React from 'react';\nexport const Frag = () => (<><span>a</span><span>b</span></>);\n";
    assert!(tsx_clean(source), "JSX fragment should parse cleanly");
    assert!(tsx_exports(source).iter().any(|e| e.name == "Frag"));
}

#[test]
fn tsx_inline_fragment() {
    let source = "\nimport React from 'react';\nexport const F = () => <><span>x</span></>;\n";
    assert!(tsx_clean(source), "inline fragment should parse cleanly");
}

#[test]
fn tsx_spread_props() {
    let source = "\nimport React from 'react';\nexport const S = (props: any) => <div {...props}>spread</div>;\n";
    assert!(tsx_clean(source), "spread props should parse cleanly");
    assert!(tsx_exports(source).iter().any(|e| e.name == "S"));
}

#[test]
fn tsx_spread_with_inline_style() {
    let source = "\nimport React from 'react';\nexport const M = (p: any) => <div {...p} style={{ margin: 0 }}>mixed</div>;\n";
    assert!(tsx_clean(source), "spread + inline style should parse cleanly");
}

#[test]
fn tsx_conditional_and() {
    let source = "\nimport React from 'react';\nexport const C = ({ show }: { show: boolean }) => <div>{show && <span>yes</span>}</div>;\n";
    assert!(tsx_clean(source), "conditional && should parse cleanly");
}

#[test]
fn tsx_ternary() {
    let source = "\nimport React from 'react';\nexport const T = ({ ok }: { ok: boolean }) => <div>{ok ? <span>y</span> : <span>n</span>}</div>;\n";
    assert!(tsx_clean(source), "ternary in JSX should parse cleanly");
}

#[test]
fn tsx_map_arrow_jsx() {
    let source = "\nimport React from 'react';\nexport const L = ({ items }: { items: string[] }) => (\n  <ul>{items.map(item => <li key={item}>{item}</li>)}</ul>\n);\n";
    assert!(tsx_clean(source), "map with arrow JSX should parse cleanly");
    assert!(tsx_exports(source).iter().any(|e| e.name == "L"));
}

#[test]
fn tsx_map_with_index_and_inline_style() {
    let source = "\nimport React from 'react';\nexport const IL = ({ items }: { items: string[] }) => (\n  <ol>\n    {items.map((item, i) => (\n      <li key={i} style={{ fontWeight: i === 0 ? 'bold' : 'normal' }}>{item}</li>\n    ))}\n  </ol>\n);\n";
    assert!(tsx_clean(source), "map with index + inline style should parse cleanly");
}

#[test]
fn tsx_anonymous_default_export() {
    let source = "\nimport React from 'react';\nexport default () => <div>anonymous</div>;\n";
    assert!(tsx_clean(source), "anonymous default export should parse cleanly");
    let exports = tsx_exports(source);
    assert!(
        exports.iter().any(|e| e.name == "default"),
        "should have default export; got: {:?}",
        exports.iter().map(|e| &e.name).collect::<Vec<_>>()
    );
}

#[test]
fn tsx_multiline_callback_prop() {
    let source = "\nimport React from 'react';\nexport const CB = () => (\n  <button\n    onClick={() => {\n      console.log('clicked');\n    }}\n  >\n    click\n  </button>\n);\n";
    assert!(tsx_clean(source), "multiline callback prop should parse cleanly");
}

#[test]
fn tsx_inline_callback_prop() {
    let source = "\nimport React from 'react';\nexport const ICB = () => <button onClick={() => console.log('hi')}>go</button>;\n";
    assert!(tsx_clean(source), "inline callback prop should parse cleanly");
}

#[test]
fn jsx_extension_parses_with_tsx_grammar() {
    let source = "\nimport React from 'react';\nexport const Btn = ({ label }) => <button style={{ padding: '8px' }}>{label}</button>;\n";
    let parser = TypeScriptParser::new();
    let g = parser.grammar_for_ext("jsx");
    assert!(!parse_has_error(g, source.as_bytes()), ".jsx file should parse cleanly with TSX grammar");
    let tree = parse(g, source.as_bytes()).unwrap();
    let exports = parser.extract_exports(&tree);
    assert!(exports.iter().any(|e| e.name == "Btn"));
}
