//! TypeScript and JavaScript: imports, exports and symbols read from the
//! syntax tree of a module.
use vstd::prelude::*;
use crate::parser::traits::{
    exports_view, imports_view, strings_view, symbols_view, ExportView, ImportKind, ImportView,
    LineSpan, RawExport, RawImport, SymbolDef, SymbolKind, SymbolView, Visibility,
};
use crate::syntax::{first_child_of_kind, flat_map, lemma_flat_map_step, Grammar, SyntaxTree};
use crate::model::{canon_spec, parent_spec, CanonicalPath, FileSet, TextMap, WorkspaceInfo, WorkspaceMember};
use crate::parser::config::bundler::BundlerConfig;
use crate::parser::config::tsconfig::{alias_candidates, byte_len, views_of_strings, TsConfig};
use crate::parser::config::{nearest_value, find_nearest_bundler, find_nearest_tsconfig};
use crate::text::{chars_of, lines_spec, string_of};

verus! {

// ---------------------------------------------------------------------------
// Specification
// ---------------------------------------------------------------------------

/// A quote character that may delimit a string literal.
pub open spec fn is_quote(c: char) -> bool {
    c == '"' || c == '\'' || c == '`'
}

/// A literal's text with its delimiting quotes removed, when the first and
/// last characters are the same quote.
pub open spec fn strip_string_spec(s: Seq<char>) -> Seq<char> {
    if s.len() >= 2 && is_quote(s[0]) && s[0] == s.last() {
        s.subrange(1, s.len() - 1)
    } else {
        s
    }
}

/// The content of string node `n`.
pub open spec fn string_content_spec(t: &SyntaxTree, n: int) -> Option<Seq<char>> {
    match t.text_opt_at(n) {
        Some(s) => Some(strip_string_spec(s)),
        None => None,
    }
}

/// An optional value as a sequence of at most one element.
pub open spec fn opt_seq<A>(o: Option<A>) -> Seq<A> {
    match o {
        Some(x) => seq![x],
        None => Seq::empty(),
    }
}

/// The kinds of identifier nodes.
pub open spec fn is_ident_kind(k: Seq<char>) -> bool {
    k == "identifier"@ || k == "type_identifier"@
}

/// The first child of `n` that is an identifier or a type identifier.
pub open spec fn first_ident_child(t: &SyntaxTree, n: int) -> Option<usize> {
    let ch = t.children_of(n);
    if exists|k: int| 0 <= k < ch.len() && is_ident_kind(t.kind_of(ch[k] as int)) {
        let k = choose|k: int|
            0 <= k < ch.len() && is_ident_kind(t.kind_of(ch[k] as int)) && forall|m: int|
                0 <= m < k ==> !is_ident_kind(t.kind_of(ch[m] as int));
        Some(ch[k])
    } else {
        None
    }
}

/// The text of an optional node, where there is one and it decodes.
pub open spec fn node_text_seq(t: &SyntaxTree, o: Option<usize>) -> Seq<Seq<char>> {
    match o {
        Some(c) => opt_seq(t.text_opt_at(c as int)),
        None => Seq::empty(),
    }
}

/// The name an import or export specifier introduces.
pub open spec fn specifier_name(t: &SyntaxTree, s: int, kind: Seq<char>) -> Seq<Seq<char>> {
    if t.kind_of(s) == kind {
        node_text_seq(t, first_ident_child(t, s))
    } else {
        Seq::empty()
    }
}

/// Names under `named_imports`.
pub open spec fn import_specifier_f(t: &SyntaxTree) -> spec_fn(usize) -> Seq<Seq<char>> {
    |s: usize| specifier_name(t, s as int, "import_specifier"@)
}

/// What one child of an import clause contributes to the imported names.
pub open spec fn clause_child_names(t: &SyntaxTree, c: int) -> Seq<Seq<char>> {
    if t.kind_of(c) == "named_imports"@ {
        flat_map(t.children_of(c), import_specifier_f(t))
    } else if t.kind_of(c) == "identifier"@ {
        opt_seq(t.text_opt_at(c))
    } else if t.kind_of(c) == "namespace_import"@ {
        match first_child_of_kind(t, c, "identifier"@) {
            Some(i) => match t.text_opt_at(i as int) {
                Some(x) => seq!["* as "@ + x],
                None => Seq::empty(),
            },
            None => Seq::empty(),
        }
    } else {
        Seq::empty()
    }
}

/// Names under an import clause.
pub open spec fn clause_child_f(t: &SyntaxTree) -> spec_fn(usize) -> Seq<Seq<char>> {
    |c: usize| clause_child_names(t, c as int)
}

/// The names an import clause brings in.
pub open spec fn named_symbols_spec(t: &SyntaxTree, clause: int) -> Seq<Seq<char>> {
    flat_map(t.children_of(clause), clause_child_f(t))
}

/// The kinds after which the scan for a `type` keyword stops.
pub open spec fn is_type_scan_stop(k: Seq<char>) -> bool {
    k == "import_clause"@ || k == "string"@ || k == "named_imports"@
}

/// Scan of the children of an import statement, from position `k`, for a
/// `type` keyword before the clause.
pub open spec fn type_scan(t: &SyntaxTree, ch: Seq<usize>, k: int) -> bool
    decreases ch.len() - k,
{
    if k < 0 || k >= ch.len() {
        false
    } else {
        let c = ch[k] as int;
        if t.kind_of(c) == "type"@ {
            true
        } else if t.kind_of(c) == "import"@ {
            type_scan(t, ch, k + 1)
        } else if t.text_opt_at(c) == Some("type"@) {
            true
        } else if is_type_scan_stop(t.kind_of(c)) {
            false
        } else {
            type_scan(t, ch, k + 1)
        }
    }
}

/// An import with no names, of the regular kind.
pub open spec fn plain_import(path: Seq<char>) -> ImportView {
    ImportView { path, symbols: Seq::empty(), is_type_only: false, kind: ImportKind::Regular }
}

/// The string arguments of a call, each as an import.
pub open spec fn string_arg_f(t: &SyntaxTree) -> spec_fn(usize) -> Seq<ImportView> {
    |a: usize|
        if t.kind_of(a as int) == "string"@ {
            match string_content_spec(t, a as int) {
                Some(p) => seq![plain_import(p)],
                None => Seq::empty(),
            }
        } else {
            Seq::empty()
        }
}

/// The imports of the arguments node of call `n`, if it has one.
pub open spec fn call_args_imports(t: &SyntaxTree, n: int) -> Seq<ImportView> {
    match first_child_of_kind(t, n, "arguments"@) {
        Some(a) => flat_map(t.children_of(a as int), string_arg_f(t)),
        None => Seq::empty(),
    }
}

/// The imports of a call expression: `require('...')` and `import('...')`.
pub open spec fn call_imports(t: &SyntaxTree, n: int) -> Seq<ImportView> {
    let req = match first_child_of_kind(t, n, "identifier"@) {
        Some(f) => if t.text_opt_at(f as int) == Some("require"@) {
            call_args_imports(t, n)
        } else {
            Seq::empty()
        },
        None => Seq::empty(),
    };
    let dynamic = match first_child_of_kind(t, n, "import"@) {
        Some(_) => call_args_imports(t, n),
        None => Seq::empty(),
    };
    req + dynamic
}

/// The `require` and dynamic imports at or below `n`, in the order a
/// last-in-first-out walk meets them: a call is not searched further, and
/// the children of any other node are visited last child first.
pub open spec fn require_imports(t: &SyntaxTree, n: int, k: int) -> Seq<ImportView>
    decreases t.size() - n, k + 1,
{
    if t.kind_of(n) == "call_expression"@ {
        call_imports(t, n)
    } else {
        let ch = t.children_of(n);
        if k <= 0 || k > ch.len() {
            Seq::empty()
        } else {
            let c = ch[k - 1] as int;
            let here = if n < c < t.size() {
                require_imports(t, c, t.children_of(c).len() as int)
            } else {
                Seq::empty()
            };
            here + require_imports(t, n, k - 1)
        }
    }
}

/// All `require` and dynamic imports at or below `n`.
pub open spec fn require_imports_of(t: &SyntaxTree, n: int) -> Seq<ImportView> {
    require_imports(t, n, t.children_of(n).len() as int)
}

/// The imports of one top-level statement.
pub open spec fn statement_imports(t: &SyntaxTree, n: int) -> Seq<ImportView> {
    let k = t.kind_of(n);
    if k == "import_statement"@ {
        match first_child_of_kind(t, n, "string"@) {
            Some(s) => match string_content_spec(t, s as int) {
                Some(path) => seq![
                    ImportView {
                        path,
                        symbols: match first_child_of_kind(t, n, "import_clause"@) {
                            Some(c) => named_symbols_spec(t, c as int),
                            None => Seq::empty(),
                        },
                        is_type_only: type_scan(t, t.children_of(n), 0),
                        kind: ImportKind::Regular,
                    },
                ],
                None => Seq::empty(),
            },
            None => Seq::empty(),
        }
    } else if k == "expression_statement"@ || k == "lexical_declaration"@ || k
        == "variable_declaration"@ {
        require_imports_of(t, n)
    } else {
        Seq::empty()
    }
}

/// Imports of a top-level statement.
pub open spec fn statement_imports_f(t: &SyntaxTree) -> spec_fn(usize) -> Seq<ImportView> {
    |n: usize| statement_imports(t, n as int)
}

/// The imports of a module: those of its top-level statements, in order.
pub open spec fn ts_imports_spec(t: &SyntaxTree) -> Seq<ImportView> {
    flat_map(t.children_of(0), statement_imports_f(t))
}

/// Names of `export_specifier` children.
pub open spec fn export_specifier_f(t: &SyntaxTree) -> spec_fn(usize) -> Seq<Seq<char>> {
    |s: usize| specifier_name(t, s as int, "export_specifier"@)
}

/// Names of the `variable_declarator` children of a declaration.
pub open spec fn declarator_name_f(t: &SyntaxTree) -> spec_fn(usize) -> Seq<Seq<char>> {
    |d: usize|
        if t.kind_of(d as int) == "variable_declarator"@ {
            node_text_seq(t, first_child_of_kind(t, d as int, "identifier"@))
        } else {
            Seq::empty()
        }
}

/// The names one child of an export statement exports.
pub open spec fn export_child_names(t: &SyntaxTree, c: int) -> Seq<Seq<char>> {
    let k = t.kind_of(c);
    if k == "export_clause"@ {
        flat_map(t.children_of(c), export_specifier_f(t))
    } else if k == "function_declaration"@ || k == "generator_function_declaration"@ || k
        == "enum_declaration"@ {
        node_text_seq(t, first_child_of_kind(t, c, "identifier"@))
    } else if k == "class_declaration"@ || k == "interface_declaration"@ || k
        == "type_alias_declaration"@ {
        node_text_seq(t, first_child_of_kind(t, c, "type_identifier"@))
    } else if k == "lexical_declaration"@ || k == "variable_declaration"@ {
        flat_map(t.children_of(c), declarator_name_f(t))
    } else if k == "*"@ || k == "namespace_export"@ {
        seq!["*"@]
    } else {
        Seq::empty()
    }
}

/// Names exported by the children of an export statement.
pub open spec fn export_child_f(t: &SyntaxTree) -> spec_fn(usize) -> Seq<Seq<char>> {
    |c: usize| export_child_names(t, c as int)
}

/// The `from` path of an export statement: the content of its last string
/// child whose text decodes.
pub open spec fn export_source(t: &SyntaxTree, ch: Seq<usize>) -> Option<Seq<char>>
    decreases ch.len(),
{
    if ch.len() == 0 {
        None
    } else {
        let c = ch.last() as int;
        if t.kind_of(c) == "string"@ && string_content_spec(t, c) is Some {
            string_content_spec(t, c)
        } else {
            export_source(t, ch.drop_last())
        }
    }
}

/// Some child is the `default` keyword.
pub open spec fn has_default(t: &SyntaxTree, ch: Seq<usize>) -> bool {
    exists|k: int| 0 <= k < ch.len() && t.kind_of(ch[k] as int) == "default"@
}

/// An export of `name` from `src`.
pub open spec fn export_of(name: Seq<char>, src: Option<Seq<char>>) -> ExportView {
    ExportView { name, is_re_export: src is Some, source: src }
}

/// The exports of one top-level statement.
pub open spec fn statement_exports(t: &SyntaxTree, n: int) -> Seq<ExportView> {
    if t.kind_of(n) == "export_statement"@ {
        let ch = t.children_of(n);
        let src = export_source(t, ch);
        if has_default(t, ch) {
            seq![export_of("default"@, src)]
        } else {
            flat_map(ch, export_child_f(t)).map_values(|nm: Seq<char>| export_of(nm, src))
        }
    } else {
        Seq::empty()
    }
}

/// Exports of a top-level statement.
pub open spec fn statement_exports_f(t: &SyntaxTree) -> spec_fn(usize) -> Seq<ExportView> {
    |n: usize| statement_exports(t, n as int)
}

/// The exports of a module.
pub open spec fn ts_exports_spec(t: &SyntaxTree) -> Seq<ExportView> {
    flat_map(t.children_of(0), statement_exports_f(t))
}

/// Longest signature kept before it is cut.
pub open spec fn sig_limit() -> nat {
    200
}

/// The first line of `s`, or `s` itself when it has no line.
pub open spec fn first_line_of(s: Seq<char>) -> Seq<char> {
    if lines_spec(s).len() > 0 {
        lines_spec(s)[0]
    } else {
        s
    }
}

/// A signature: the first line, cut to 200 characters with `...` appended
/// when it is longer.
pub open spec fn trunc_sig(s: Seq<char>) -> Seq<char> {
    let fl = first_line_of(s);
    if fl.len() > sig_limit() {
        fl.take(sig_limit() as int) + "..."@
    } else {
        fl
    }
}

/// The signature made of the whole text of node `n`.
pub open spec fn full_sig(t: &SyntaxTree, n: int) -> Option<Seq<char>> {
    match t.text_opt_at(n) {
        Some(s) => Some(trunc_sig(s)),
        None => None,
    }
}

/// The signature made of the first line of node `n`.
pub open spec fn line_sig(t: &SyntaxTree, n: int) -> Option<Seq<char>> {
    match t.text_opt_at(n) {
        Some(s) => if lines_spec(s).len() > 0 {
            Some(trunc_sig(lines_spec(s)[0]))
        } else {
            None
        },
        None => None,
    }
}

/// The 1-based lines node `n` spans.
pub open spec fn span_of(t: &SyntaxTree, n: int) -> LineSpan {
    LineSpan {
        start: (t.nodes()[n].start_row + 1) as u32,
        end: (t.nodes()[n].end_row + 1) as u32,
    }
}

/// Public when exported, private otherwise.
pub open spec fn vis_of(exported: bool) -> Visibility {
    if exported {
        Visibility::Public
    } else {
        Visibility::Private
    }
}

/// `^[A-Z][A-Z0-9_]*$`.
pub open spec fn upper_case_const(s: Seq<char>) -> bool {
    &&& s.len() > 0
    &&& 'A' <= s[0] <= 'Z'
    &&& forall|i: int| 0 <= i < s.len() ==> ('A' <= #[trigger] s[i] <= 'Z') || ('0' <= s[i] <= '9') || s[i] == '_'
}

/// A declarator whose value is an arrow function or a function expression.
pub open spec fn is_arrow_spec(t: &SyntaxTree, d: int) -> bool {
    exists|k: int|
        0 <= k < t.children_of(d).len() && (t.kind_of(t.children_of(d)[k] as int) == "arrow_function"@
            || t.kind_of(t.children_of(d)[k] as int) == "function"@)
}

/// Visibility of a class member, from the first accessibility modifier
/// (from position `k` on) whose text decodes.
pub open spec fn member_vis_scan(t: &SyntaxTree, ch: Seq<usize>, k: int) -> Visibility
    decreases ch.len() - k,
{
    if k < 0 || k >= ch.len() {
        Visibility::Public
    } else {
        let c = ch[k] as int;
        if t.kind_of(c) == "accessibility_modifier"@ && t.text_opt_at(c) is Some {
            let x = t.text_opt_at(c)->0;
            if x == "private"@ {
                Visibility::Private
            } else if x == "protected"@ {
                Visibility::Internal
            } else {
                Visibility::Public
            }
        } else {
            member_vis_scan(t, ch, k + 1)
        }
    }
}

/// A symbol of `kind` named by node `name_node`, declared by node `n`.
pub open spec fn symbol_at(
    t: &SyntaxTree,
    name_node: Option<usize>,
    kind: SymbolKind,
    vis: Visibility,
    n: int,
    sig: Option<Seq<char>>,
    parent: Option<Seq<char>>,
) -> Seq<SymbolView> {
    match name_node {
        Some(c) => match t.text_opt_at(c as int) {
            Some(name) => seq![
                SymbolView { name, kind, visibility: vis, span: span_of(t, n), signature: sig, parent },
            ],
            None => Seq::empty(),
        },
        None => Seq::empty(),
    }
}

/// Symbols of the members of a class body.
pub open spec fn member_f(t: &SyntaxTree, class_name: Option<Seq<char>>) -> spec_fn(usize) -> Seq<SymbolView> {
    |m: usize|
        if t.kind_of(m as int) == "method_definition"@ || t.kind_of(m as int) == "public_field_definition"@ {
            symbol_at(
                t,
                first_child_of_kind(t, m as int, "property_identifier"@),
                SymbolKind::Method,
                member_vis_scan(t, t.children_of(m as int), 0),
                m as int,
                line_sig(t, m as int),
                class_name,
            )
        } else {
            Seq::empty()
        }
}

/// Symbols of the declarators of a variable declaration `c`.
pub open spec fn declarator_sym_f(t: &SyntaxTree, c: int, parent: Option<Seq<char>>, exported: bool) -> spec_fn(usize) -> Seq<SymbolView> {
    |d: usize|
        if t.kind_of(d as int) == "variable_declarator"@ {
            match first_child_of_kind(t, d as int, "identifier"@) {
                Some(i) => match t.text_opt_at(i as int) {
                    Some(name) => seq![
                        SymbolView {
                            name,
                            kind: if is_arrow_spec(t, d as int) {
                                SymbolKind::Function
                            } else if upper_case_const(name) {
                                SymbolKind::Const
                            } else {
                                SymbolKind::Variable
                            },
                            visibility: vis_of(exported),
                            span: span_of(t, c),
                            signature: full_sig(t, c),
                            parent,
                        },
                    ],
                    None => Seq::empty(),
                },
                None => Seq::empty(),
            }
        } else {
            Seq::empty()
        }
}

/// The symbols one declaration `c` (other than an export statement) defines.
pub open spec fn decl_symbols(t: &SyntaxTree, c: int, parent: Option<Seq<char>>, exported: bool) -> Seq<SymbolView> {
    let k = t.kind_of(c);
    let vis = vis_of(exported);
    if k == "function_declaration"@ || k == "generator_function_declaration"@ {
        symbol_at(
            t,
            first_child_of_kind(t, c, "identifier"@),
            if parent is Some { SymbolKind::Method } else { SymbolKind::Function },
            vis,
            c,
            full_sig(t, c),
            parent,
        )
    } else if k == "class_declaration"@ {
        let name_node = first_child_of_kind(t, c, "type_identifier"@);
        let class_name = match name_node {
            Some(i) => t.text_opt_at(i as int),
            None => None,
        };
        symbol_at(t, name_node, SymbolKind::Class, vis, c, line_sig(t, c), parent) + match first_child_of_kind(
            t,
            c,
            "class_body"@,
        ) {
            Some(b) => flat_map(t.children_of(b as int), member_f(t, class_name)),
            None => Seq::empty(),
        }
    } else if k == "interface_declaration"@ {
        symbol_at(t, first_child_of_kind(t, c, "type_identifier"@), SymbolKind::Interface, vis, c, line_sig(t, c), parent)
    } else if k == "type_alias_declaration"@ {
        symbol_at(t, first_child_of_kind(t, c, "type_identifier"@), SymbolKind::Type, vis, c, full_sig(t, c), parent)
    } else if k == "enum_declaration"@ {
        symbol_at(t, first_child_of_kind(t, c, "identifier"@), SymbolKind::Enum, vis, c, line_sig(t, c), parent)
    } else if k == "lexical_declaration"@ || k == "variable_declaration"@ {
        flat_map(t.children_of(c), declarator_sym_f(t, c, parent, exported))
    } else {
        Seq::empty()
    }
}

/// The symbols defined by the first `k` children of `n`; export statements
/// are searched with their declarations counted as exported.
pub open spec fn symbols_of(t: &SyntaxTree, n: int, k: int, parent: Option<Seq<char>>, exported: bool) -> Seq<SymbolView>
    decreases t.size() - n, k,
{
    let ch = t.children_of(n);
    if k <= 0 || k > ch.len() {
        Seq::empty()
    } else {
        let c = ch[k - 1] as int;
        symbols_of(t, n, k - 1, parent, exported) + if t.kind_of(c) == "export_statement"@ {
            if n < c < t.size() {
                symbols_of(t, c, t.children_of(c).len() as int, parent, true)
            } else {
                Seq::empty()
            }
        } else {
            decl_symbols(t, c, parent, exported)
        }
    }
}

/// The symbols a module defines.
pub open spec fn ts_symbols_spec(t: &SyntaxTree) -> Seq<SymbolView> {
    symbols_of(t, 0, t.children_of(0).len() as int, None, false)
}

// ---------------------------------------------------------------------------
// Implementation
// ---------------------------------------------------------------------------

/// `strip_string_spec` on characters.
fn strip_string(s: Vec<char>) -> (r: Vec<char>)
    ensures
        r@ == strip_string_spec(s@),
{
    let n = s.len();
    if n >= 2 && (s[0] == '"' || s[0] == '\'' || s[0] == '`') && s[0] == s[n - 1] {
        crate::text::slice(&s, 1, n - 1)
    } else {
        s
    }
}

/// The content of string node `n`, its quotes removed.
pub(crate) fn string_content(t: &SyntaxTree, n: usize) -> (r: Option<String>)
    requires
        n < t.size(),
    ensures
        opt_str(r) == string_content_spec(t, n as int),
{
    match t.text_opt(n) {
        Some(v) => Some(string_of(&strip_string(v))),
        None => None,
    }
}

/// The characters of an optional string.
pub open spec fn opt_str(o: Option<String>) -> Option<Seq<char>> {
    match o {
        Some(s) => Some(s@),
        None => None,
    }
}

/// The first identifier or type identifier child of `n`.
fn ident_child(t: &SyntaxTree, n: usize) -> (r: Option<usize>)
    requires
        n < t.size(),
    ensures
        r == first_ident_child(t, n as int),
        r matches Some(c) ==> n < c < t.size(),
{
    let ch = t.children(n);
    let mut k: usize = 0;
    while k < ch.len()
        invariant
            0 <= k <= ch@.len(),
            n < t.size(),
            ch@ == t.children_of(n as int),
            forall|j: int| 0 <= j < ch@.len() ==> n < #[trigger] ch@[j] < t.size(),
            forall|m: int| 0 <= m < k ==> !is_ident_kind(t.kind_of(ch@[m] as int)),
        decreases ch.len() - k,
    {
        let c = ch[k];
        if t.is_kind(c, "identifier") || t.is_kind(c, "type_identifier") {
            proof {
                let kk = k as int;
                assert(0 <= kk < ch@.len() && is_ident_kind(t.kind_of(ch@[kk] as int)));
                let j = choose|j: int|
                    0 <= j < ch@.len() && is_ident_kind(t.kind_of(ch@[j] as int)) && forall|m: int|
                        0 <= m < j ==> !is_ident_kind(t.kind_of(ch@[m] as int));
                if j > kk {
                    assert(!is_ident_kind(t.kind_of(ch@[kk] as int)));
                }
            }
            return Some(c);
        }
        k += 1;
    }
    None
}

/// Push the text of node `c` onto `out` when it decodes.
fn push_text(t: &SyntaxTree, c: Option<usize>, out: &mut Vec<String>)
    requires
        c matches Some(x) ==> x < t.size(),
    ensures
        strings_view(final(out)@) == strings_view(old(out)@) + node_text_seq(t, c),
{
    match c {
        Some(x) => match t.text_opt(x) {
            Some(v) => {
                out.push(string_of(&v));
                assert(strings_view(out@) =~= strings_view(old(out)@) + node_text_seq(t, c));
            },
            None => {
                assert(strings_view(out@) =~= strings_view(old(out)@) + node_text_seq(t, c));
            },
        },
        None => {
            assert(strings_view(out@) =~= strings_view(old(out)@) + node_text_seq(t, c));
        },
    }
}

/// The names an import clause brings in.
fn named_symbols(t: &SyntaxTree, clause: usize) -> (r: Vec<String>)
    requires
        clause < t.size(),
    ensures
        strings_view(r@) == named_symbols_spec(t, clause as int),
{
    let mut out: Vec<String> = Vec::new();
    let ch = t.children(clause);
    let mut k: usize = 0;
    while k < ch.len()
        invariant
            0 <= k <= ch@.len(),
            ch@ == t.children_of(clause as int),
            forall|j: int| 0 <= j < ch@.len() ==> clause < #[trigger] ch@[j] < t.size(),
            strings_view(out@) == flat_map(ch@.take(k as int), clause_child_f(t)),
        decreases ch.len() - k,
    {
        let c = ch[k];
        proof {
            lemma_flat_map_step(ch@, clause_child_f(t), k as int);
        }
        if t.is_kind(c, "named_imports") {
            let inner = t.children(c);
            let ghost before = strings_view(out@);
            let mut m: usize = 0;
            while m < inner.len()
                invariant
                    0 <= m <= inner@.len(),
                    inner@ == t.children_of(c as int),
                    forall|j: int| 0 <= j < inner@.len() ==> c < #[trigger] inner@[j] < t.size(),
                    strings_view(out@) == before + flat_map(inner@.take(m as int), import_specifier_f(t)),
                decreases inner.len() - m,
            {
                let s = inner[m];
                proof {
                    lemma_flat_map_step(inner@, import_specifier_f(t), m as int);
                }
                if t.is_kind(s, "import_specifier") {
                    let id = ident_child(t, s);
                    push_text(t, id, &mut out);
                }
                m += 1;
            }
            proof {
                assert(inner@.take(inner@.len() as int) =~= inner@);
            }
        } else if t.is_kind(c, "identifier") {
            push_text(t, Some(c), &mut out);
        } else if t.is_kind(c, "namespace_import") {
            match t.child_of_kind(c, "identifier") {
                Some(i) => match t.text_opt(i) {
                    Some(v) => {
                        let mut name = chars_of("* as ");
                        crate::text::push_all(&mut name, &v);
                        out.push(string_of(&name));
                    },
                    None => {},
                },
                None => {},
            }
        }
        proof {
            assert(strings_view(out@) =~= flat_map(ch@.take(k + 1), clause_child_f(t)));
        }
        k += 1;
    }
    proof {
        assert(ch@.take(ch@.len() as int) =~= ch@);
    }
    out
}


/// A regular import with no names.
fn plain(path: String) -> (r: RawImport)
    ensures
        r@ == plain_import(path@),
{
    let r = RawImport { path, symbols: Vec::new(), is_type_only: false, kind: ImportKind::Regular };
    assert(strings_view(r.symbols@) =~= Seq::<Seq<char>>::empty());
    r
}

/// Whether an import statement is type-only (`import type ...`).
fn is_type_import(t: &SyntaxTree, n: usize) -> (r: bool)
    requires
        n < t.size(),
    ensures
        r == type_scan(t, t.children_of(n as int), 0),
{
    let ch = t.children(n);
    let mut k: usize = 0;
    while k < ch.len()
        invariant
            0 <= k <= ch@.len(),
            ch@ == t.children_of(n as int),
            forall|j: int| 0 <= j < ch@.len() ==> n < #[trigger] ch@[j] < t.size(),
            type_scan(t, ch@, 0) == type_scan(t, ch@, k as int),
        decreases ch.len() - k,
    {
        let c = ch[k];
        if t.is_kind(c, "type") {
            return true;
        }
        if t.is_kind(c, "import") {
            k += 1;
            continue;
        }
        match t.text_opt(c) {
            Some(v) => {
                let ty = chars_of("type");
                if crate::text::eq(&v, &ty) {
                    return true;
                }
            },
            None => {},
        }
        if t.is_kind(c, "import_clause") || t.is_kind(c, "string") || t.is_kind(c, "named_imports") {
            return false;
        }
        k += 1;
    }
    false
}

/// Push one import per string argument of the arguments node of call `n`.
fn push_call_args(t: &SyntaxTree, n: usize, out: &mut Vec<RawImport>)
    requires
        n < t.size(),
    ensures
        imports_view(final(out)@) == imports_view(old(out)@) + call_args_imports(t, n as int),
{
    match t.child_of_kind(n, "arguments") {
        Some(a) => {
            let ch = t.children(a);
            let ghost before = imports_view(out@);
            let mut k: usize = 0;
            while k < ch.len()
                invariant
                    0 <= k <= ch@.len(),
                    ch@ == t.children_of(a as int),
                    forall|j: int| 0 <= j < ch@.len() ==> a < #[trigger] ch@[j] < t.size(),
                    imports_view(out@) == before + flat_map(ch@.take(k as int), string_arg_f(t)),
                decreases ch.len() - k,
            {
                let c = ch[k];
                proof {
                    lemma_flat_map_step(ch@, string_arg_f(t), k as int);
                }
                let ghost mid = imports_view(out@);
                if t.is_kind(c, "string") {
                    match string_content(t, c) {
                        Some(p) => {
                            out.push(plain(p));
                            assert(imports_view(out@) =~= mid + seq![plain_import(string_content_spec(t, c as int)->0)]);
                        },
                        None => {},
                    }
                }
                assert(imports_view(out@) =~= before + flat_map(ch@.take(k + 1), string_arg_f(t)));
                k += 1;
            }
            assert(ch@.take(ch@.len() as int) =~= ch@);
        },
        None => {
            assert(imports_view(out@) =~= imports_view(old(out)@) + call_args_imports(t, n as int));
        },
    }
}

/// Push the `require('...')` and `import('...')` imports of call `n`.
fn push_call_imports(t: &SyntaxTree, n: usize, out: &mut Vec<RawImport>)
    requires
        n < t.size(),
    ensures
        imports_view(final(out)@) == imports_view(old(out)@) + call_imports(t, n as int),
{
    let ghost before = imports_view(out@);
    match t.child_of_kind(n, "identifier") {
        Some(f) => {
            let is_require = match t.text_opt(f) {
                Some(v) => {
                    let req = chars_of("require");
                    crate::text::eq(&v, &req)
                },
                None => false,
            };
            if is_require {
                push_call_args(t, n, out);
            }
        },
        None => {},
    }
    let ghost mid = imports_view(out@);
    match t.child_of_kind(n, "import") {
        Some(_) => {
            push_call_args(t, n, out);
        },
        None => {},
    }
    assert(imports_view(out@) =~= before + call_imports(t, n as int));
}

/// Push the `require` and dynamic imports at or below `n`.
fn push_require_imports(t: &SyntaxTree, n: usize, out: &mut Vec<RawImport>)
    requires
        n < t.size(),
    ensures
        imports_view(final(out)@) == imports_view(old(out)@) + require_imports_of(t, n as int),
    decreases t.size() - n,
{
    if t.is_kind(n, "call_expression") {
        push_call_imports(t, n, out);
        return;
    }
    let ch = t.children(n);
    let ghost before = imports_view(out@);
    let mut k: usize = ch.len();
    while k > 0
        invariant
            0 <= k <= ch@.len(),
            ch@ == t.children_of(n as int),
            t.kind_of(n as int) != "call_expression"@,
            n < t.size(),
            forall|j: int| 0 <= j < ch@.len() ==> n < #[trigger] ch@[j] < t.size(),
            before + require_imports(t, n as int, ch@.len() as int) == imports_view(out@)
                + require_imports(t, n as int, k as int),
        decreases k,
    {
        let c = ch[k - 1];
        let ghost mid = imports_view(out@);
        push_require_imports(t, c, out);
        proof {
            assert(require_imports(t, n as int, k as int) == require_imports_of(t, c as int)
                + require_imports(t, n as int, k - 1));
            assert(imports_view(out@) + require_imports(t, n as int, k - 1) =~= mid
                + require_imports(t, n as int, k as int));
        }
        k -= 1;
    }
    assert(imports_view(out@) + require_imports(t, n as int, 0) =~= imports_view(out@));
}

/// The imports of a TypeScript or JavaScript module: `import` statements,
/// and `require(...)` and `import(...)` calls in top-level statements.
pub fn ts_extract_imports(t: &SyntaxTree) -> (r: Vec<RawImport>)
    ensures
        imports_view(r@) == ts_imports_spec(t),
{
    let mut out: Vec<RawImport> = Vec::new();
    let _ = t.len();
    let ch = t.children(0);
    let mut k: usize = 0;
    while k < ch.len()
        invariant
            0 <= k <= ch@.len(),
            ch@ == t.children_of(0),
            forall|j: int| 0 <= j < ch@.len() ==> 0 < #[trigger] ch@[j] < t.size(),
            imports_view(out@) == flat_map(ch@.take(k as int), statement_imports_f(t)),
        decreases ch.len() - k,
    {
        let n = ch[k];
        proof {
            lemma_flat_map_step(ch@, statement_imports_f(t), k as int);
        }
        let ghost mid = imports_view(out@);
        if t.is_kind(n, "import_statement") {
            let type_only = is_type_import(t, n);
            match t.child_of_kind(n, "string") {
                Some(sn) => match string_content(t, sn) {
                    Some(path) => {
                        let symbols = match t.child_of_kind(n, "import_clause") {
                            Some(cl) => named_symbols(t, cl),
                            None => {
                                let v: Vec<String> = Vec::new();
                                assert(strings_view(v@) =~= Seq::<Seq<char>>::empty());
                                v
                            },
                        };
                        out.push(RawImport { path, symbols, is_type_only: type_only, kind: ImportKind::Regular });
                        assert(imports_view(out@) =~= mid + statement_imports(t, n as int));
                    },
                    None => {},
                },
                None => {},
            }
        } else if t.is_kind(n, "expression_statement") || t.is_kind(n, "lexical_declaration")
            || t.is_kind(n, "variable_declaration") {
            push_require_imports(t, n, &mut out);
        }
        assert(imports_view(out@) =~= flat_map(ch@.take(k + 1), statement_imports_f(t)));
        k += 1;
    }
    assert(ch@.take(ch@.len() as int) =~= ch@);
    out
}

/// Push the names a child of an export statement exports.
fn push_export_names(t: &SyntaxTree, c: usize, out: &mut Vec<String>)
    requires
        c < t.size(),
    ensures
        strings_view(final(out)@) == strings_view(old(out)@) + export_child_names(t, c as int),
{
    let ghost before = strings_view(out@);
    if t.is_kind(c, "export_clause") {
        let ch = t.children(c);
        let mut k: usize = 0;
        while k < ch.len()
            invariant
                0 <= k <= ch@.len(),
                ch@ == t.children_of(c as int),
                forall|j: int| 0 <= j < ch@.len() ==> c < #[trigger] ch@[j] < t.size(),
                strings_view(out@) == before + flat_map(ch@.take(k as int), export_specifier_f(t)),
            decreases ch.len() - k,
        {
            let s = ch[k];
            proof {
                lemma_flat_map_step(ch@, export_specifier_f(t), k as int);
            }
            if t.is_kind(s, "export_specifier") {
                let id = ident_child(t, s);
                push_text(t, id, out);
            }
            proof {
                assert(strings_view(out@) =~= before + flat_map(ch@.take(k + 1), export_specifier_f(t)));
            }
            k += 1;
        }
        assert(ch@.take(ch@.len() as int) =~= ch@);
    } else if t.is_kind(c, "function_declaration") || t.is_kind(c, "generator_function_declaration")
        || t.is_kind(c, "enum_declaration") {
        let id = t.child_of_kind(c, "identifier");
        push_text(t, id, out);
    } else if t.is_kind(c, "class_declaration") || t.is_kind(c, "interface_declaration")
        || t.is_kind(c, "type_alias_declaration") {
        let id = t.child_of_kind(c, "type_identifier");
        push_text(t, id, out);
    } else if t.is_kind(c, "lexical_declaration") || t.is_kind(c, "variable_declaration") {
        let ch = t.children(c);
        let mut k: usize = 0;
        while k < ch.len()
            invariant
                0 <= k <= ch@.len(),
                ch@ == t.children_of(c as int),
                forall|j: int| 0 <= j < ch@.len() ==> c < #[trigger] ch@[j] < t.size(),
                strings_view(out@) == before + flat_map(ch@.take(k as int), declarator_name_f(t)),
            decreases ch.len() - k,
        {
            let d = ch[k];
            proof {
                lemma_flat_map_step(ch@, declarator_name_f(t), k as int);
            }
            if t.is_kind(d, "variable_declarator") {
                let id = t.child_of_kind(d, "identifier");
                push_text(t, id, out);
            }
            proof {
                assert(strings_view(out@) =~= before + flat_map(ch@.take(k + 1), declarator_name_f(t)));
            }
            k += 1;
        }
        assert(ch@.take(ch@.len() as int) =~= ch@);
    } else if t.is_kind(c, "*") || t.is_kind(c, "namespace_export") {
        out.push(string_of(&chars_of("*")));
        assert(strings_view(out@) =~= before + export_child_names(t, c as int));
    } else {
        assert(strings_view(out@) =~= before + export_child_names(t, c as int));
    }
}

pub(crate) fn clone_opt_string(o: &Option<String>) -> (r: Option<String>)
    ensures
        r == *o,
{
    match o {
        Some(s) => Some(s.clone()),
        None => None,
    }
}

/// The exports of one `export_statement` node.
fn push_statement_exports(t: &SyntaxTree, n: usize, out: &mut Vec<RawExport>)
    requires
        n < t.size(),
        t.kind_of(n as int) == "export_statement"@,
    ensures
        exports_view(final(out)@) == exports_view(old(out)@) + statement_exports(t, n as int),
{
    let ghost before = exports_view(out@);
    let ch = t.children(n);
    let mut is_default = false;
    let mut source_path: Option<String> = None;
    let mut names: Vec<String> = Vec::new();
    let mut k: usize = 0;
    while k < ch.len()
        invariant
            0 <= k <= ch@.len(),
            ch@ == t.children_of(n as int),
            forall|j: int| 0 <= j < ch@.len() ==> n < #[trigger] ch@[j] < t.size(),
            strings_view(names@) == flat_map(ch@.take(k as int), export_child_f(t)),
            opt_str(source_path) == export_source(t, ch@.take(k as int)),
            is_default == has_default(t, ch@.take(k as int)),
        decreases ch.len() - k,
    {
        let c = ch[k];
        proof {
            lemma_flat_map_step(ch@, export_child_f(t), k as int);
            assert(ch@.take(k + 1).drop_last() =~= ch@.take(k as int));
            assert(ch@.take(k + 1).last() == c);
        }
        if t.is_kind(c, "default") {
            is_default = true;
        }
        if t.is_kind(c, "string") {
            match string_content(t, c) {
                Some(p) => {
                    source_path = Some(p);
                },
                None => {},
            }
        }
        push_export_names(t, c, &mut names);
        proof {
            let tk = ch@.take(k + 1);
            assert(export_source(t, tk) == (if t.kind_of(c as int) == "string"@ && string_content_spec(t, c as int) is Some {
                string_content_spec(t, c as int)
            } else {
                export_source(t, ch@.take(k as int))
            }));
            if is_default {
                if t.kind_of(c as int) == "default"@ {
                    assert(0 <= k < tk.len() && t.kind_of(tk[k as int] as int) == "default"@);
                } else {
                    let j = choose|j: int| 0 <= j < k && t.kind_of(ch@.take(k as int)[j] as int) == "default"@;
                    assert(tk[j] == ch@.take(k as int)[j]);
                }
            } else {
                assert forall|j: int| 0 <= j < tk.len() implies t.kind_of(tk[j] as int) != "default"@ by {
                    if j < k {
                        assert(tk[j] == ch@.take(k as int)[j]);
                    }
                }
            }
        }
        k += 1;
    }
    assert(ch@.take(ch@.len() as int) =~= ch@);
    if is_default {
        let src = clone_opt_string(&source_path);
        out.push(RawExport { name: string_of(&chars_of("default")), is_re_export: src.is_some(), source: src });
        assert(exports_view(out@) =~= before + statement_exports(t, n as int));
    } else {
        let ghost nm = strings_view(names@);
        let ghost src = opt_str(source_path);
        let mut m: usize = 0;
        while m < names.len()
            invariant
                0 <= m <= names@.len(),
                nm == strings_view(names@),
                src == opt_str(source_path),
                exports_view(out@) == before + nm.take(m as int).map_values(|x: Seq<char>| export_of(x, src)),
            decreases names.len() - m,
        {
            let src_copy = clone_opt_string(&source_path);
            let ghost mid = exports_view(out@);
            out.push(RawExport { name: names[m].clone(), is_re_export: src_copy.is_some(), source: src_copy });
            proof {
                assert(nm.take(m + 1) =~= nm.take(m as int).push(nm[m as int]));
                assert(exports_view(out@) =~= mid.push(export_of(nm[m as int], src)));
                assert(nm.take(m + 1).map_values(|x: Seq<char>| export_of(x, src)) =~= nm.take(m as int).map_values(|x: Seq<char>| export_of(x, src)).push(export_of(nm[m as int], src)));
            }
            m += 1;
        }
        assert(nm.take(nm.len() as int) =~= nm);
    }
}

/// The exports of a TypeScript or JavaScript module.
pub fn ts_extract_exports(t: &SyntaxTree) -> (r: Vec<RawExport>)
    ensures
        exports_view(r@) == ts_exports_spec(t),
{
    let mut out: Vec<RawExport> = Vec::new();
    let _ = t.len();
    let ch = t.children(0);
    let mut k: usize = 0;
    while k < ch.len()
        invariant
            0 <= k <= ch@.len(),
            ch@ == t.children_of(0),
            forall|j: int| 0 <= j < ch@.len() ==> 0 < #[trigger] ch@[j] < t.size(),
            exports_view(out@) == flat_map(ch@.take(k as int), statement_exports_f(t)),
        decreases ch.len() - k,
    {
        let n = ch[k];
        proof {
            lemma_flat_map_step(ch@, statement_exports_f(t), k as int);
        }
        let ghost mid = exports_view(out@);
        if t.is_kind(n, "export_statement") {
            push_statement_exports(t, n, &mut out);
        } else {
            assert(exports_view(out@) =~= mid + statement_exports(t, n as int));
        }
        assert(exports_view(out@) =~= flat_map(ch@.take(k + 1), statement_exports_f(t)));
        k += 1;
    }
    assert(ch@.take(ch@.len() as int) =~= ch@);
    out
}

/// `trunc_sig` on characters.
fn trunc_sig_exec(s: &Vec<char>) -> (r: String)
    ensures
        r@ == trunc_sig(s@),
{
    let ls = crate::text::lines(s);
    let fl = if ls.len() > 0 {
        proof {
            assert(crate::text::views(ls@)[0] == ls@[0]@);
        }
        crate::text::slice(&ls[0], 0, ls[0].len())
    } else {
        crate::text::slice(s, 0, s.len())
    };
    assert(fl@ == first_line_of(s@)) by {
        if ls@.len() > 0 {
            assert(ls@[0]@.subrange(0, ls@[0]@.len() as int) =~= ls@[0]@);
        } else {
            assert(s@.subrange(0, s@.len() as int) =~= s@);
        }
    }
    if fl.len() > 200 {
        let mut cut = crate::text::slice(&fl, 0, 200);
        crate::text::push_all(&mut cut, &chars_of("..."));
        assert(fl@.subrange(0, 200) =~= fl@.take(200));
        string_of(&cut)
    } else {
        string_of(&fl)
    }
}

/// The signature made of the whole text of node `n`.
fn full_sig_exec(t: &SyntaxTree, n: usize) -> (r: Option<String>)
    requires
        n < t.size(),
    ensures
        opt_str(r) == full_sig(t, n as int),
{
    match t.text_opt(n) {
        Some(v) => Some(trunc_sig_exec(&v)),
        None => None,
    }
}

/// The signature made of the first line of node `n`.
pub(crate) fn line_sig_exec(t: &SyntaxTree, n: usize) -> (r: Option<String>)
    requires
        n < t.size(),
    ensures
        opt_str(r) == line_sig(t, n as int),
{
    match t.text_opt(n) {
        Some(v) => {
            let ls = crate::text::lines(&v);
            if ls.len() > 0 {
                proof {
                    assert(crate::text::views(ls@)[0] == ls@[0]@);
                }
                Some(trunc_sig_exec(&ls[0]))
            } else {
                None
            }
        },
        None => None,
    }
}

/// The 1-based lines node `n` spans.
pub(crate) fn span_exec(t: &SyntaxTree, n: usize) -> (r: LineSpan)
    requires
        n < t.size(),
    ensures
        r == span_of(t, n as int),
{
    let node = t.node(n);
    LineSpan { start: (node.start_row + 1) as u32, end: (node.end_row + 1) as u32 }
}

/// Whether declarator `d` holds an arrow function or function expression.
fn is_arrow(t: &SyntaxTree, d: usize) -> (r: bool)
    requires
        d < t.size(),
    ensures
        r == is_arrow_spec(t, d as int),
{
    let ch = t.children(d);
    let mut k: usize = 0;
    while k < ch.len()
        invariant
            0 <= k <= ch@.len(),
            ch@ == t.children_of(d as int),
            forall|j: int| 0 <= j < ch@.len() ==> d < #[trigger] ch@[j] < t.size(),
            forall|j: int|
                0 <= j < k ==> !(t.kind_of(ch@[j] as int) == "arrow_function"@ || t.kind_of(ch@[j] as int)
                    == "function"@),
        decreases ch.len() - k,
    {
        if t.is_kind(ch[k], "arrow_function") || t.is_kind(ch[k], "function") {
            return true;
        }
        k += 1;
    }
    false
}

/// `^[A-Z][A-Z0-9_]*$`.
pub(crate) fn upper_case_const_exec(v: &Vec<char>) -> (r: bool)
    ensures
        r == upper_case_const(v@),
{
    if v.len() == 0 || !('A' <= v[0] && v[0] <= 'Z') {
        return false;
    }
    let mut i: usize = 0;
    while i < v.len()
        invariant
            0 <= i <= v@.len(),
            forall|j: int| 0 <= j < i ==> ('A' <= #[trigger] v@[j] <= 'Z') || ('0' <= v@[j] <= '9') || v@[j] == '_',
        decreases v.len() - i,
    {
        let c = v[i];
        if !(('A' <= c && c <= 'Z') || ('0' <= c && c <= '9') || c == '_') {
            return false;
        }
        i += 1;
    }
    true
}

/// Visibility of a class member.
fn member_vis(t: &SyntaxTree, m: usize) -> (r: Visibility)
    requires
        m < t.size(),
    ensures
        r == member_vis_scan(t, t.children_of(m as int), 0),
{
    let ch = t.children(m);
    let mut k: usize = 0;
    while k < ch.len()
        invariant
            0 <= k <= ch@.len(),
            ch@ == t.children_of(m as int),
            forall|j: int| 0 <= j < ch@.len() ==> m < #[trigger] ch@[j] < t.size(),
            member_vis_scan(t, ch@, 0) == member_vis_scan(t, ch@, k as int),
        decreases ch.len() - k,
    {
        let c = ch[k];
        if t.is_kind(c, "accessibility_modifier") {
            match t.text_opt(c) {
                Some(x) => {
                    if crate::text::eq(&x, &chars_of("private")) {
                        return Visibility::Private;
                    } else if crate::text::eq(&x, &chars_of("protected")) {
                        return Visibility::Internal;
                    } else {
                        return Visibility::Public;
                    }
                },
                None => {},
            }
        }
        k += 1;
    }
    Visibility::Public
}

/// Push the symbol named by `name_node`, when its text decodes.
fn push_symbol_at(
    t: &SyntaxTree,
    name_node: Option<usize>,
    kind: SymbolKind,
    vis: Visibility,
    n: usize,
    sig: Option<String>,
    parent: &Option<String>,
    out: &mut Vec<SymbolDef>,
)
    requires
        n < t.size(),
        name_node matches Some(c) ==> c < t.size(),
    ensures
        symbols_view(final(out)@) == symbols_view(old(out)@) + symbol_at(
            t,
            name_node,
            kind,
            vis,
            n as int,
            opt_str(sig),
            opt_str(*parent),
        ),
{
    let ghost before = symbols_view(out@);
    match name_node {
        Some(c) => match t.text_opt(c) {
            Some(name) => {
                let span = span_exec(t, n);
                out.push(SymbolDef { name: string_of(&name), kind, visibility: vis, span, signature: sig, parent: clone_opt_string(parent) });
                assert(symbols_view(out@) =~= before + symbol_at(t, name_node, kind, vis, n as int, opt_str(sig), opt_str(*parent)));
            },
            None => {
                assert(symbols_view(out@) =~= before + symbol_at(t, name_node, kind, vis, n as int, opt_str(sig), opt_str(*parent)));
            },
        },
        None => {
            assert(symbols_view(out@) =~= before + symbol_at(t, name_node, kind, vis, n as int, opt_str(sig), opt_str(*parent)));
        },
    }
}

/// Push the symbols of the members of class body `b`.
fn push_members(t: &SyntaxTree, b: usize, class_name: &Option<String>, out: &mut Vec<SymbolDef>)
    requires
        b < t.size(),
    ensures
        symbols_view(final(out)@) == symbols_view(old(out)@) + flat_map(t.children_of(b as int), member_f(t, opt_str(*class_name))),
{
    let ghost before = symbols_view(out@);
    let ghost f = member_f(t, opt_str(*class_name));
    let ch = t.children(b);
    let mut k: usize = 0;
    while k < ch.len()
        invariant
            0 <= k <= ch@.len(),
            ch@ == t.children_of(b as int),
            f == member_f(t, opt_str(*class_name)),
            forall|j: int| 0 <= j < ch@.len() ==> b < #[trigger] ch@[j] < t.size(),
            symbols_view(out@) == before + flat_map(ch@.take(k as int), f),
        decreases ch.len() - k,
    {
        let m = ch[k];
        proof {
            lemma_flat_map_step(ch@, f, k as int);
        }
        let ghost mid = symbols_view(out@);
        if t.is_kind(m, "method_definition") || t.is_kind(m, "public_field_definition") {
            let name_node = t.child_of_kind(m, "property_identifier");
            let vis = member_vis(t, m);
            let sig = line_sig_exec(t, m);
            push_symbol_at(t, name_node, SymbolKind::Method, vis, m, sig, class_name, out);
        }
        assert(symbols_view(out@) =~= before + flat_map(ch@.take(k + 1), f));
        k += 1;
    }
    assert(ch@.take(ch@.len() as int) =~= ch@);
}

/// Push the symbols declaration `c` defines.
fn push_decl_symbols(t: &SyntaxTree, c: usize, parent: &Option<String>, exported: bool, out: &mut Vec<SymbolDef>)
    requires
        c < t.size(),
    ensures
        symbols_view(final(out)@) == symbols_view(old(out)@) + decl_symbols(t, c as int, opt_str(*parent), exported),
{
    let ghost before = symbols_view(out@);
    let ghost p = opt_str(*parent);
    let vis = if exported { Visibility::Public } else { Visibility::Private };
    if t.is_kind(c, "function_declaration") || t.is_kind(c, "generator_function_declaration") {
        let kind = if parent.is_some() { SymbolKind::Method } else { SymbolKind::Function };
        let name_node = t.child_of_kind(c, "identifier");
        let sig = full_sig_exec(t, c);
        push_symbol_at(t, name_node, kind, vis, c, sig, parent, out);
    } else if t.is_kind(c, "class_declaration") {
        let name_node = t.child_of_kind(c, "type_identifier");
        let class_name: Option<String> = match name_node {
            Some(i) => match t.text_opt(i) {
                Some(v) => Some(string_of(&v)),
                None => None,
            },
            None => None,
        };
        let sig = line_sig_exec(t, c);
        push_symbol_at(t, name_node, SymbolKind::Class, vis, c, sig, parent, out);
        let ghost mid = symbols_view(out@);
        match t.child_of_kind(c, "class_body") {
            Some(b) => {
                push_members(t, b, &class_name, out);
            },
            None => {},
        }
        assert(symbols_view(out@) =~= before + decl_symbols(t, c as int, p, exported));
    } else if t.is_kind(c, "interface_declaration") {
        let name_node = t.child_of_kind(c, "type_identifier");
        let sig = line_sig_exec(t, c);
        push_symbol_at(t, name_node, SymbolKind::Interface, vis, c, sig, parent, out);
    } else if t.is_kind(c, "type_alias_declaration") {
        let name_node = t.child_of_kind(c, "type_identifier");
        let sig = full_sig_exec(t, c);
        push_symbol_at(t, name_node, SymbolKind::Type, vis, c, sig, parent, out);
    } else if t.is_kind(c, "enum_declaration") {
        let name_node = t.child_of_kind(c, "identifier");
        let sig = line_sig_exec(t, c);
        push_symbol_at(t, name_node, SymbolKind::Enum, vis, c, sig, parent, out);
    } else if t.is_kind(c, "lexical_declaration") || t.is_kind(c, "variable_declaration") {
        let ghost f = declarator_sym_f(t, c as int, p, exported);
        let ch = t.children(c);
        let mut k: usize = 0;
        while k < ch.len()
            invariant
                0 <= k <= ch@.len(),
                ch@ == t.children_of(c as int),
                c < t.size(),
                p == opt_str(*parent),
                vis == vis_of(exported),
                f == declarator_sym_f(t, c as int, p, exported),
                forall|j: int| 0 <= j < ch@.len() ==> c < #[trigger] ch@[j] < t.size(),
                symbols_view(out@) == before + flat_map(ch@.take(k as int), f),
            decreases ch.len() - k,
        {
            let d = ch[k];
            proof {
                lemma_flat_map_step(ch@, f, k as int);
            }
            let ghost mid = symbols_view(out@);
            if t.is_kind(d, "variable_declarator") {
                match t.child_of_kind(d, "identifier") {
                    Some(i) => match t.text_opt(i) {
                        Some(name) => {
                            let kind = if is_arrow(t, d) {
                                SymbolKind::Function
                            } else if upper_case_const_exec(&name) {
                                SymbolKind::Const
                            } else {
                                SymbolKind::Variable
                            };
                            let span = span_exec(t, c);
                            let sig = full_sig_exec(t, c);
                            let sym = SymbolDef { name: string_of(&name), kind, visibility: vis, span, signature: sig, parent: clone_opt_string(parent) };
                            assert(seq![sym@] =~= f(d));
                            out.push(sym);
                            assert(symbols_view(out@) =~= mid + f(d));
                        },
                        None => {
                            assert(f(d) =~= Seq::<SymbolView>::empty());
                        },
                    },
                    None => {
                        assert(f(d) =~= Seq::<SymbolView>::empty());
                    },
                }
            } else {
                assert(f(d) =~= Seq::<SymbolView>::empty());
            }
            assert(symbols_view(out@) =~= mid + f(d));
            assert(symbols_view(out@) =~= before + flat_map(ch@.take(k + 1), f));
            k += 1;
        }
        assert(ch@.take(ch@.len() as int) =~= ch@);
    } else {
        assert(symbols_view(out@) =~= before + decl_symbols(t, c as int, p, exported));
    }
}

/// Push the symbols defined under node `n`.
fn push_symbols(t: &SyntaxTree, n: usize, parent: &Option<String>, exported: bool, out: &mut Vec<SymbolDef>)
    requires
        n < t.size(),
    ensures
        symbols_view(final(out)@) == symbols_view(old(out)@) + symbols_of(
            t,
            n as int,
            t.children_of(n as int).len() as int,
            opt_str(*parent),
            exported,
        ),
    decreases t.size() - n,
{
    let ghost before = symbols_view(out@);
    let ghost p = opt_str(*parent);
    let ch = t.children(n);
    let mut k: usize = 0;
    while k < ch.len()
        invariant
            0 <= k <= ch@.len(),
            n < t.size(),
            ch@ == t.children_of(n as int),
            p == opt_str(*parent),
            forall|j: int| 0 <= j < ch@.len() ==> n < #[trigger] ch@[j] < t.size(),
            symbols_view(out@) == before + symbols_of(t, n as int, k as int, p, exported),
        decreases ch.len() - k,
    {
        let c = ch[k];
        let ghost mid = symbols_view(out@);
        if t.is_kind(c, "export_statement") {
            push_symbols(t, c, parent, true, out);
        } else {
            push_decl_symbols(t, c, parent, exported, out);
        }
        assert(symbols_view(out@) =~= before + symbols_of(t, n as int, k + 1, p, exported));
        k += 1;
    }
}

/// The symbols a TypeScript or JavaScript module defines.
pub fn ts_extract_symbols(t: &SyntaxTree) -> (r: Vec<SymbolDef>)
    ensures
        symbols_view(r@) == ts_symbols_spec(t),
{
    let mut out: Vec<SymbolDef> = Vec::new();
    let _ = t.len();
    push_symbols(t, 0, &None, false, &mut out);
    assert(symbols_view(out@) =~= ts_symbols_spec(t));
    out
}

// ---------------------------------------------------------------------------
// Resolution
// ---------------------------------------------------------------------------

/// The file extensions probed after an exact match.
pub open spec fn probe_exts() -> Seq<Seq<char>> {
    seq!["ts"@, "tsx"@, "js"@, "jsx"@, "mjs"@, "cjs"@]
}

/// The extensions of index files probed last.
pub open spec fn index_exts() -> Seq<Seq<char>> {
    seq!["ts"@, "tsx"@, "js"@, "jsx"@]
}

/// The paths tried for a module: `exact`, then `base` with each extension,
/// then `base/index` with each index extension, all canonical.
pub open spec fn probe_candidates(exact: Seq<char>, base: Seq<char>) -> Seq<Seq<char>> {
    seq![exact] + probe_exts().map_values(|e: Seq<char>| canon_spec(base + "."@ + e)) + index_exts().map_values(
        |e: Seq<char>| canon_spec(base + "/index."@ + e),
    )
}

/// The first of `cands` that is a known file.
pub open spec fn first_known(cands: Seq<Seq<char>>, files: Seq<Seq<char>>) -> Option<Seq<char>>
    decreases cands.len(),
{
    if cands.len() == 0 {
        None
    } else if files.contains(cands[0]) {
        Some(cands[0])
    } else {
        first_known(cands.drop_first(), files)
    }
}

/// What probing `base` finds: `base` itself, with an extension, or as a
/// directory with an index file.
pub open spec fn probe_spec(base: Seq<char>, files: Seq<Seq<char>>) -> Option<Seq<char>> {
    first_known(probe_candidates(canon_spec(base), base), files)
}

/// `s` without a leading `./`.
pub open spec fn strip_dot_slash(s: Seq<char>) -> Seq<char> {
    if "./"@.is_prefix_of(s) {
        s.skip(2)
    } else {
        s
    }
}

/// What one workspace member gives for an import.
pub open spec fn member_resolution(m: WorkspaceMember, import_path: Seq<char>, files: Seq<Seq<char>>) -> Option<Seq<char>> {
    if import_path == m.name@ {
        let entry = canon_spec(strip_dot_slash(crate::text::replace_char_spec(m.entry_point@, '\\', '/')));
        first_known(probe_candidates(entry, entry), files)
    } else if (m.name@ + "/"@).is_prefix_of(import_path) {
        let sub = import_path.skip(m.name@.len() + 1int);
        let dir = strip_dot_slash(crate::text::replace_char_spec(m.path@, '\\', '/'));
        let base = canon_spec(dir + "/"@ + sub);
        first_known(probe_candidates(base, base), files)
    } else {
        None
    }
}

/// The first member, from position `k` on, that resolves the import.
pub open spec fn workspace_resolution(ms: Seq<WorkspaceMember>, import_path: Seq<char>, files: Seq<Seq<char>>, k: int) -> Option<Seq<char>>
    decreases ms.len() - k,
{
    if k < 0 || k >= ms.len() {
        None
    } else {
        match member_resolution(ms[k], import_path, files) {
            Some(r) => Some(r),
            None => workspace_resolution(ms, import_path, files, k + 1),
        }
    }
}

/// The directory part of a file, or nothing.
pub open spec fn from_dir(from: Seq<char>) -> Seq<char> {
    match parent_spec(from) {
        Some(d) => d,
        None => Seq::empty(),
    }
}

/// The first alias candidate, in order, that probes to a known file.
pub open spec fn first_probe(cands: Seq<Seq<char>>, files: Seq<Seq<char>>) -> Option<Seq<char>>
    decreases cands.len(),
{
    if cands.len() == 0 {
        None
    } else {
        match probe_spec(strip_dot_slash(cands[0]), files) {
            Some(r) => Some(r),
            None => first_probe(cands.drop_first(), files),
        }
    }
}

/// Resolution through the nearest tsconfig's path aliases.
pub open spec fn via_tsconfig(configs: &TextMap<TsConfig>, specifier: Seq<char>, from: Seq<char>, files: Seq<Seq<char>>) -> Option<Seq<char>> {
    match nearest_value(configs, from_dir(from)) {
        Some(c) => first_probe(alias_candidates(&c, specifier), files),
        None => None,
    }
}

/// The path a bundler alias entry gives for a specifier it prefixes.
pub open spec fn bundler_base(prefix: Seq<char>, target: Seq<char>, specifier: Seq<char>) -> Seq<char> {
    let rest0 = specifier.skip(prefix.len() as int);
    let rest = if rest0.len() > 0 && rest0[0] == '/' {
        rest0.drop_first()
    } else {
        rest0
    };
    if rest.len() == 0 {
        target
    } else {
        target + "/"@ + rest
    }
}

/// Alias entry `i` prefixes the specifier and probes to a known file.
pub open spec fn bundler_hit(e: Seq<(String, String)>, specifier: Seq<char>, files: Seq<Seq<char>>, i: int) -> bool {
    &&& 0 <= i < e.len()
    &&& e[i].0@.is_prefix_of(specifier)
    &&& probe_spec(bundler_base(e[i].0@, e[i].1@, specifier), files) is Some
}

/// Alias entry `i` is the one used: a hit, and every other hit has a
/// shorter prefix or an equally long one later in key order.
pub open spec fn is_bundler_choice(e: Seq<(String, String)>, specifier: Seq<char>, files: Seq<Seq<char>>, i: int) -> bool {
    &&& bundler_hit(e, specifier, files, i)
    &&& forall|j: int|
        j != i && #[trigger] bundler_hit(e, specifier, files, j) ==> (byte_len(e[j].0@) < byte_len(e[i].0@) || (
        byte_len(e[j].0@) == byte_len(e[i].0@) && j > i))
}

/// Resolution through the nearest bundler config's aliases, longest prefix first.
pub open spec fn via_bundler(configs: &TextMap<BundlerConfig>, specifier: Seq<char>, from: Seq<char>, files: Seq<Seq<char>>) -> Option<Seq<char>> {
    match nearest_value(configs, from_dir(from)) {
        Some(c) => {
            let e = c.aliases.spec_entries();
            if exists|i: int| is_bundler_choice(e, specifier, files, i) {
                let i = choose|i: int| is_bundler_choice(e, specifier, files, i);
                probe_spec(bundler_base(e[i].0@, e[i].1@, specifier), files)
            } else {
                None
            }
        },
        None => None,
    }
}

/// A bare module specifier: neither relative nor absolute.
pub open spec fn is_bare(s: Seq<char>) -> bool {
    !(s.len() > 0 && (s[0] == '.' || s[0] == '/'))
}

/// Resolution of a relative import against the importing file's directory.
pub open spec fn relative_resolution(specifier: Seq<char>, from: Seq<char>, files: Seq<Seq<char>>) -> Option<Seq<char>> {
    let dir = from_dir(from);
    let joined = if dir.len() == 0 {
        specifier
    } else {
        dir + "/"@ + specifier
    };
    let base = canon_spec(joined);
    first_known(probe_candidates(canon_spec(base), base), files)
}

/// What the TypeScript resolver makes of an import.
pub open spec fn ts_resolve_spec(
    r: &TypeScriptResolver,
    specifier: Seq<char>,
    from: Seq<char>,
    files: Seq<Seq<char>>,
    workspace: Option<WorkspaceInfo>,
) -> Option<Seq<char>> {
    let ws = match workspace {
        Some(w) => workspace_resolution(w.members@, specifier, files, 0),
        None => None,
    };
    let ts = match r.ts_configs {
        Some(c) => via_tsconfig(&c, specifier, from, files),
        None => None,
    };
    let bd = match r.bundler_configs {
        Some(c) => via_bundler(&c, specifier, from, files),
        None => None,
    };
    if specifier.len() == 0 {
        None
    } else if ws is Some {
        ws
    } else if ts is Some {
        ts
    } else if bd is Some {
        bd
    } else if is_bare(specifier) {
        None
    } else {
        relative_resolution(specifier, from, files)
    }
}

/// Resolver for TypeScript and JavaScript imports.
#[derive(Debug)]
pub struct TypeScriptResolver {
    /// tsconfig path aliases, keyed by the directory of their tsconfig.json.
    pub ts_configs: Option<TextMap<TsConfig>>,
    /// Bundler aliases, keyed by the directory of their config file.
    pub bundler_configs: Option<TextMap<BundlerConfig>>,
}

/// The first of `cands` that is a known file.
fn first_known_exec(cands: &Vec<Vec<char>>, files: &FileSet) -> (r: Option<CanonicalPath>)
    ensures
        match r {
            Some(p) => first_known(crate::text::views(cands@), files@) == Some(p@),
            None => first_known(crate::text::views(cands@), files@) is None,
        },
{
    let ghost vs = crate::text::views(cands@);
    assert(vs.skip(0) =~= vs);
    let mut i: usize = 0;
    while i < cands.len()
        invariant
            0 <= i <= cands@.len(),
            vs == crate::text::views(cands@),
            first_known(vs, files@) == first_known(vs.skip(i as int), files@),
        decreases cands.len() - i,
    {
        let p = CanonicalPath::from_raw(&cands[i]);
        assert(vs.skip(i as int)[0] == cands@[i as int]@);
        assert(vs.skip(i as int).drop_first() =~= vs.skip(i + 1));
        if files.contains(&p) {
            return Some(p);
        }
        i += 1;
    }
    assert(vs.skip(i as int).len() == 0);
    None
}

/// The first of `cands` that is a known file.
pub fn first_known_files(cands: &Vec<Vec<char>>, files: &FileSet) -> (r: Option<CanonicalPath>)
    ensures
        match r {
            Some(p) => first_known(crate::text::views(cands@), files@) == Some(p@),
            None => first_known(crate::text::views(cands@), files@) is None,
        },
{
    first_known_exec(cands, files)
}

/// `base` followed by `sep` and `ext`, canonical.
fn canon_with(base: &Vec<char>, sep: &str, ext: &str) -> (r: Vec<char>)
    ensures
        r@ == canon_spec(base@ + sep@ + ext@),
{
    let mut v = crate::text::slice(base, 0, base.len());
    crate::text::push_all(&mut v, &chars_of(sep));
    crate::text::push_all(&mut v, &chars_of(ext));
    assert(base@.subrange(0, base@.len() as int) =~= base@);
    assert(v@ =~= base@ + sep@ + ext@);
    crate::model::canonicalize(&v)
}

/// `probe_candidates`.
fn probe_candidates_exec(exact: &Vec<char>, base: &Vec<char>) -> (r: Vec<Vec<char>>)
    ensures
        crate::text::views(r@) == probe_candidates(exact@, base@),
{
    let mut r: Vec<Vec<char>> = Vec::new();
    r.push(crate::text::slice(exact, 0, exact.len()));
    r.push(canon_with(base, ".", "ts"));
    r.push(canon_with(base, ".", "tsx"));
    r.push(canon_with(base, ".", "js"));
    r.push(canon_with(base, ".", "jsx"));
    r.push(canon_with(base, ".", "mjs"));
    r.push(canon_with(base, ".", "cjs"));
    r.push(canon_with(base, "/index.", "ts"));
    r.push(canon_with(base, "/index.", "tsx"));
    r.push(canon_with(base, "/index.", "js"));
    r.push(canon_with(base, "/index.", "jsx"));
    assert(exact@.subrange(0, exact@.len() as int) =~= exact@);
    assert(crate::text::views(r@) =~= probe_candidates(exact@, base@));
    r
}

/// Probe `base` with TypeScript and JavaScript extensions and index files.
pub fn probe_ts_extensions(base: &Vec<char>, files: &FileSet) -> (r: Option<CanonicalPath>)
    ensures
        match r {
            Some(p) => probe_spec(base@, files@) == Some(p@),
            None => probe_spec(base@, files@) is None,
        },
{
    let exact = crate::model::canonicalize(base);
    let cands = probe_candidates_exec(&exact, base);
    first_known_exec(&cands, files)
}

/// `strip_dot_slash`.
fn strip_dot_slash_exec(v: &Vec<char>) -> (r: Vec<char>)
    ensures
        r@ == strip_dot_slash(v@),
{
    proof {
        reveal_strlit("./");
    }
    match crate::text::strip_prefix(v, &chars_of("./")) {
        Some(rest) => rest,
        None => {
            assert(v@.subrange(0, v@.len() as int) =~= v@);
            crate::text::slice(v, 0, v.len())
        },
    }
}

/// What one workspace member gives for an import.
fn member_resolution_exec(m: &WorkspaceMember, import_path: &Vec<char>, files: &FileSet) -> (r: Option<CanonicalPath>)
    ensures
        match r {
            Some(p) => member_resolution(*m, import_path@, files@) == Some(p@),
            None => member_resolution(*m, import_path@, files@) is None,
        },
{
    let name = chars_of(m.name.as_str());
    if crate::text::eq(import_path, &name) {
        let entry = crate::model::canonicalize(&strip_dot_slash_exec(&crate::text::replace_char(&chars_of(m.entry_point.as_str()), '\\', '/')));
        let cands = probe_candidates_exec(&entry, &entry);
        return first_known_exec(&cands, files);
    }
    let mut with_slash = crate::text::slice(&name, 0, name.len());
    with_slash.push('/');
    assert(name@.subrange(0, name@.len() as int) =~= name@);
    assert(with_slash@ =~= name@ + "/"@) by {
        reveal_strlit("/");
    }
    if crate::text::starts_with(import_path, &with_slash) {
        assert(with_slash@.len() == name@.len() + 1);
        assert(with_slash@.len() <= import_path@.len());
        let sub = crate::text::slice(import_path, with_slash.len(), import_path.len());
        let dir = strip_dot_slash_exec(&crate::text::replace_char(&chars_of(m.path.as_str()), '\\', '/'));
        let mut joined = crate::text::slice(&dir, 0, dir.len());
        joined.push('/');
        crate::text::push_all(&mut joined, &sub);
        proof {
            reveal_strlit("/");
            assert(dir@.subrange(0, dir@.len() as int) =~= dir@);
            assert(joined@ =~= dir@ + "/"@ + sub@);
            assert(sub@ == import_path@.skip(m.name@.len() + 1int));
        }
        let base = crate::model::canonicalize(&joined);
        let cands = probe_candidates_exec(&base, &base);
        return first_known_exec(&cands, files);
    }
    None
}

/// The first workspace member that resolves the import.
fn resolve_workspace_import(import_path: &Vec<char>, files: &FileSet, ws: &WorkspaceInfo) -> (r: Option<CanonicalPath>)
    ensures
        match r {
            Some(p) => workspace_resolution(ws.members@, import_path@, files@, 0) == Some(p@),
            None => workspace_resolution(ws.members@, import_path@, files@, 0) is None,
        },
{
    let mut k: usize = 0;
    while k < ws.members.len()
        invariant
            0 <= k <= ws.members@.len(),
            workspace_resolution(ws.members@, import_path@, files@, 0) == workspace_resolution(ws.members@, import_path@, files@, k as int),
        decreases ws.members.len() - k,
    {
        match member_resolution_exec(&ws.members[k], import_path, files) {
            Some(p) => {
                return Some(p);
            },
            None => {},
        }
        k += 1;
    }
    None
}

/// The directory part of a file, or nothing.
fn from_dir_exec(from: &CanonicalPath) -> (r: Vec<char>)
    ensures
        r@ == from_dir(from@),
{
    match from.parent() {
        Some(d) => d,
        None => Vec::new(),
    }
}

/// Resolution through the nearest tsconfig's path aliases.
fn resolve_via_tsconfig(specifier: &str, from: &CanonicalPath, files: &FileSet, configs: &TextMap<TsConfig>) -> (r: Option<CanonicalPath>)
    ensures
        match r {
            Some(p) => via_tsconfig(configs, specifier@, from@, files@) == Some(p@),
            None => via_tsconfig(configs, specifier@, from@, files@) is None,
        },
{
    let dir = from_dir_exec(from);
    let dir_s = string_of(&dir);
    let config = match find_nearest_tsconfig(dir_s.as_str(), configs) {
        Some(c) => c,
        None => return None,
    };
    assert(nearest_value(configs, from_dir(from@)) == Some(*config));
    let cands = crate::parser::config::tsconfig::resolve_path_alias(specifier, config);
    assert(via_tsconfig(configs, specifier@, from@, files@) == first_probe(views_of_strings(cands@), files@));
    let ghost cv = views_of_strings(cands@);
    assert(cv.skip(0) =~= cv);
    let mut i: usize = 0;
    while i < cands.len()
        invariant
            0 <= i <= cands@.len(),
            cv == views_of_strings(cands@),
            via_tsconfig(configs, specifier@, from@, files@) == first_probe(cv, files@),
            first_probe(cv, files@) == first_probe(cv.skip(i as int), files@),
        decreases cands.len() - i,
    {
        let c = chars_of(cands[i].as_str());
        assert(cv.skip(i as int)[0] == c@);
        assert(cv.skip(i as int).drop_first() =~= cv.skip(i + 1));
        let stripped = strip_dot_slash_exec(&c);
        match probe_ts_extensions(&stripped, files) {
            Some(p) => {
                assert(first_probe(cv.skip(i as int), files@) == Some(p@));
                return Some(p);
            },
            None => {
                assert(first_probe(cv.skip(i as int), files@) == first_probe(cv.skip(i + 1), files@));
            },
        }
        i += 1;
    }
    assert(cv.skip(i as int).len() == 0);
    None
}

/// `bundler_base`.
fn bundler_base_exec(prefix: &Vec<char>, target: &Vec<char>, specifier: &Vec<char>) -> (r: Vec<char>)
    requires
        prefix@.len() <= specifier@.len(),
    ensures
        r@ == bundler_base(prefix@, target@, specifier@),
{
    let rest0 = crate::text::slice(specifier, prefix.len(), specifier.len());
    assert(rest0@ == specifier@.skip(prefix@.len() as int));
    let rest = if rest0.len() > 0 && rest0[0] == '/' {
        crate::text::slice(&rest0, 1, rest0.len())
    } else {
        rest0
    };
    if rest.len() == 0 {
        crate::text::slice(target, 0, target.len())
    } else {
        let mut v = crate::text::slice(target, 0, target.len());
        v.push('/');
        crate::text::push_all(&mut v, &rest);
        proof {
            reveal_strlit("/");
            assert(target@.subrange(0, target@.len() as int) =~= target@);
            assert(v@ =~= target@ + "/"@ + rest@);
        }
        v
    }
}

/// Whether alias entry `a` prefixes the specifier and probes to a known
/// file, and to which.
fn bundler_try(a: &(String, String), spec_v: &Vec<char>, files: &FileSet) -> (r: Option<CanonicalPath>)
    ensures
        match r {
            Some(p) => a.0@.is_prefix_of(spec_v@) && probe_spec(bundler_base(a.0@, a.1@, spec_v@), files@) == Some(p@),
            None => !(a.0@.is_prefix_of(spec_v@) && probe_spec(bundler_base(a.0@, a.1@, spec_v@), files@) is Some),
        },
{
    let pre = chars_of(a.0.as_str());
    if crate::text::starts_with(spec_v, &pre) {
        let target = chars_of(a.1.as_str());
        let base = bundler_base_exec(&pre, &target, spec_v);
        probe_ts_extensions(&base, files)
    } else {
        None
    }
}

/// Resolution through the nearest bundler config's aliases.
#[verifier::rlimit(40)]
fn resolve_via_bundler(specifier: &str, from: &CanonicalPath, files: &FileSet, configs: &TextMap<BundlerConfig>) -> (r: Option<CanonicalPath>)
    ensures
        match r {
            Some(p) => via_bundler(configs, specifier@, from@, files@) == Some(p@),
            None => via_bundler(configs, specifier@, from@, files@) is None,
        },
{
    let dir = from_dir_exec(from);
    let dir_s = string_of(&dir);
    let config = match find_nearest_bundler(dir_s.as_str(), configs) {
        Some(c) => c,
        None => return None,
    };
    let spec_v = chars_of(specifier);
    let entries = config.aliases.entries();
    let ghost e = entries@;
    let ghost files_v = files@;
    let mut best: Option<(usize, CanonicalPath)> = None;
    let mut i: usize = 0;
    while i < entries.len()
        invariant
            0 <= i <= entries@.len(),
            e == entries@,
            e == config.aliases.spec_entries(),
            spec_v@ == specifier@,
            files_v == files@,
            match best {
                Some((b, p)) => {
                    &&& b < i
                    &&& bundler_hit(e, specifier@, files_v, b as int)
                    &&& probe_spec(bundler_base(e[b as int].0@, e[b as int].1@, specifier@), files_v) == Some(p@)
                    &&& forall|j: int|
                        0 <= j < i && j != b && #[trigger] bundler_hit(e, specifier@, files_v, j) ==> (byte_len(e[j].0@)
                            < byte_len(e[b as int].0@) || (byte_len(e[j].0@) == byte_len(e[b as int].0@) && j > b))
                },
                None => forall|j: int| 0 <= j < i ==> !#[trigger] bundler_hit(e, specifier@, files_v, j),
            },
        decreases entries.len() - i,
    {
        match bundler_try(&entries[i], &spec_v, files) {
            Some(p) => {
                proof {
                    assert(entries@[i as int] == e[i as int]);
                }
                let si = entries[i].0.as_str();
                let li = si.len();
                assert(li == byte_len(e[i as int].0@)) by {
                    assert(si@ == e[i as int].0@);
                }
                let take = match &best {
                    Some((b, _)) => {
                        let sb = entries[*b].0.as_str();
                        let lb = sb.len();
                        assert(lb == byte_len(e[*b as int].0@)) by {
                            assert(sb@ == e[*b as int].0@);
                        }
                        li > lb
                    },
                    None => true,
                };
                if take {
                    best = Some((i, p));
                }
            },
            None => {},
        }
        i += 1;
    }
    match best {
        Some((b, p)) => {
            proof {
                assert(is_bundler_choice(e, specifier@, files_v, b as int)) by {
                    assert forall|j: int| j != b && #[trigger] bundler_hit(e, specifier@, files_v, j) implies (byte_len(e[j].0@)
                        < byte_len(e[b as int].0@) || (byte_len(e[j].0@) == byte_len(e[b as int].0@) && j > b)) by {
                    }
                }
                let c = choose|c: int| is_bundler_choice(e, specifier@, files_v, c);
                if c != b {
                    assert(bundler_hit(e, specifier@, files_v, c));
                }
            }
            Some(p)
        },
        None => {
            proof {
                if exists|c: int| is_bundler_choice(e, specifier@, files_v, c) {
                    let c = choose|c: int| is_bundler_choice(e, specifier@, files_v, c);
                    assert(bundler_hit(e, specifier@, files_v, c));
                }
            }
            None
        },
    }
}

impl TypeScriptResolver {
    /// A resolver without path aliases.
    pub fn new() -> (r: TypeScriptResolver)
        ensures
            r.ts_configs is None,
            r.bundler_configs is None,
    {
        TypeScriptResolver { ts_configs: None, bundler_configs: None }
    }

    /// Use tsconfig path aliases (kept only when there are some).
    pub fn with_ts_configs(self, configs: TextMap<TsConfig>) -> (r: TypeScriptResolver)
        ensures
            r.bundler_configs == self.bundler_configs,
            if configs.spec_entries().len() == 0 {
                r.ts_configs == self.ts_configs
            } else {
                r.ts_configs == Some(configs)
            },
    {
        let mut s = self;
        if !configs.is_empty() {
            s.ts_configs = Some(configs);
        }
        s
    }

    /// Use bundler aliases (kept only when there are some).
    pub fn with_bundler_configs(self, configs: TextMap<BundlerConfig>) -> (r: TypeScriptResolver)
        ensures
            r.ts_configs == self.ts_configs,
            if configs.spec_entries().len() == 0 {
                r.bundler_configs == self.bundler_configs
            } else {
                r.bundler_configs == Some(configs)
            },
    {
        let mut s = self;
        if !configs.is_empty() {
            s.bundler_configs = Some(configs);
        }
        s
    }

    /// Resolve a TypeScript or JavaScript import: workspace packages first,
    /// then tsconfig path aliases, then bundler aliases; bare specifiers
    /// (npm packages) are left unresolved; relative imports are probed
    /// with extensions and index files.
    pub fn resolve_import(
        &self,
        import: &RawImport,
        from_file: &CanonicalPath,
        known_files: &FileSet,
        workspace: Option<&WorkspaceInfo>,
    ) -> (r: Option<CanonicalPath>)
        ensures
            match r {
                Some(p) => ts_resolve_spec(self, import.path@, from_file@, known_files@, match workspace {
                    Some(w) => Some(*w),
                    None => None,
                }) == Some(p@),
                None => ts_resolve_spec(self, import.path@, from_file@, known_files@, match workspace {
                    Some(w) => Some(*w),
                    None => None,
                }) is None,
            },
    {
        let spec_v = chars_of(import.path.as_str());
        if spec_v.len() == 0 {
            return None;
        }
        match workspace {
            Some(ws) => match resolve_workspace_import(&spec_v, known_files, ws) {
                Some(p) => {
                    return Some(p);
                },
                None => {},
            },
            None => {},
        }
        match &self.ts_configs {
            Some(c) => match resolve_via_tsconfig(import.path.as_str(), from_file, known_files, c) {
                Some(p) => {
                    return Some(p);
                },
                None => {},
            },
            None => {},
        }
        match &self.bundler_configs {
            Some(c) => match resolve_via_bundler(import.path.as_str(), from_file, known_files, c) {
                Some(p) => {
                    return Some(p);
                },
                None => {},
            },
            None => {},
        }
        if !(spec_v[0] == '.' || spec_v[0] == '/') {
            return None;
        }
        let dir = from_dir_exec(from_file);
        let joined = if dir.len() == 0 {
            crate::text::slice(&spec_v, 0, spec_v.len())
        } else {
            let mut v = crate::text::slice(&dir, 0, dir.len());
            v.push('/');
            crate::text::push_all(&mut v, &spec_v);
            proof {
                reveal_strlit("/");
                assert(dir@.subrange(0, dir@.len() as int) =~= dir@);
                assert(v@ =~= dir@ + "/"@ + spec_v@);
            }
            v
        };
        assert(spec_v@.subrange(0, spec_v@.len() as int) =~= spec_v@);
        let base = crate::model::canonicalize(&joined);
        let exact = crate::model::canonicalize(&base);
        let cands = probe_candidates_exec(&exact, &base);
        first_known_exec(&cands, known_files)
    }
}

impl crate::parser::traits::ImportResolver for TypeScriptResolver {
    fn resolve(
        &self,
        import: &RawImport,
        from_file: &CanonicalPath,
        known_files: &FileSet,
        workspace: Option<&WorkspaceInfo>,
    ) -> (r: Option<CanonicalPath>)
        ensures
            match r {
                Some(p) => ts_resolve_spec(self, import.path@, from_file@, known_files@, match workspace {
                    Some(w) => Some(*w),
                    None => None,
                }) == Some(p@),
                None => ts_resolve_spec(self, import.path@, from_file@, known_files@, match workspace {
                    Some(w) => Some(*w),
                    None => None,
                }) is None,
            },
    {
        self.resolve_import(import, from_file, known_files, workspace)
    }
}

/// Parser for TypeScript and JavaScript modules.
#[derive(Debug)]
pub struct TypeScriptParser;

impl TypeScriptParser {
    /// The parser.
    pub fn new() -> TypeScriptParser {
        TypeScriptParser
    }

    /// The language name.
    pub fn language(&self) -> (r: &'static str)
        ensures
            r@ == "typescript"@,
    {
        "typescript"
    }

    /// The file extensions handled.
    pub fn extensions(&self) -> (r: Vec<&'static str>)
        ensures
            r@.len() == 6,
            r@[0]@ == "ts"@,
            r@[1]@ == "tsx"@,
            r@[2]@ == "js"@,
            r@[3]@ == "jsx"@,
            r@[4]@ == "mjs"@,
            r@[5]@ == "cjs"@,
    {
        let mut v: Vec<&'static str> = Vec::new();
        v.push("ts");
        v.push("tsx");
        v.push("js");
        v.push("jsx");
        v.push("mjs");
        v.push("cjs");
        v
    }

    /// The grammar for a file extension: TSX for `tsx` and `jsx`, TypeScript otherwise.
    pub fn grammar_for_ext(&self, ext: &str) -> (r: Grammar)
        ensures
            r == if ext@ == "tsx"@ || ext@ == "jsx"@ {
                Grammar::Tsx
            } else {
                Grammar::TypeScript
            },
    {
        let e = chars_of(ext);
        if crate::text::eq(&e, &chars_of("tsx")) || crate::text::eq(&e, &chars_of("jsx")) {
            Grammar::Tsx
        } else {
            Grammar::TypeScript
        }
    }

    /// The imports of a module.
    pub fn extract_imports(&self, t: &SyntaxTree) -> (r: Vec<RawImport>)
        ensures
            imports_view(r@) == ts_imports_spec(t),
    {
        ts_extract_imports(t)
    }

    /// The exports of a module.
    pub fn extract_exports(&self, t: &SyntaxTree) -> (r: Vec<RawExport>)
        ensures
            exports_view(r@) == ts_exports_spec(t),
    {
        ts_extract_exports(t)
    }

    /// The symbols a module defines.
    pub fn extract_symbols(&self, t: &SyntaxTree) -> (r: Vec<SymbolDef>)
        ensures
            symbols_view(r@) == ts_symbols_spec(t),
    {
        ts_extract_symbols(t)
    }
}
} // verus!
