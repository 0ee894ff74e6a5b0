//! Go: import paths resolved to package files.
use vstd::prelude::*;
use crate::model::{canon_spec, first_direct_child, CanonicalPath, FileSet, WorkspaceInfo};
use crate::parser::traits::{imports_view, strings_view, ImportKind, ImportResolver, ImportView, RawExport, RawImport};
use crate::syntax::{flat_map, lemma_flat_map_step, SyntaxTree};
use crate::text::{chars_of, find_char, find_char_spec, string_of, strip_prefix, trim, trim_spec};

verus! {

/// Whether an import names the standard library: it has no dot.
pub open spec fn go_is_stdlib(path: Seq<char>) -> bool {
    find_char_spec(path, '.') is None
}

/// Whether an import lies outside the module: it has a dot and does not
/// start with the module path.
pub open spec fn go_is_external(path: Seq<char>, module: Option<Seq<char>>) -> bool {
    !go_is_stdlib(path) && !(module matches Some(m) && m.is_prefix_of(path))
}

/// The import path relative to the module root: past the module path and
/// a slash, or the whole path.
pub open spec fn go_relative(path: Seq<char>, module: Option<Seq<char>>) -> Seq<char> {
    match module {
        Some(m) => if m.is_prefix_of(path) && path.len() > m.len() && path[m.len() as int] == '/' {
            path.skip(m.len() as int + 1)
        } else {
            path
        },
        None => path,
    }
}

/// What resolving an import within module `module` gives: nothing for the
/// standard library and other modules, else the first `.go` file directly
/// in the package directory, else the path itself as a `.go` file.
pub open spec fn go_resolve_spec(path: Seq<char>, module: Option<Seq<char>>, files: Seq<Seq<char>>) -> Option<Seq<char>> {
    if go_is_stdlib(path) || go_is_external(path, module) {
        None
    } else {
        let rel = go_relative(path, module);
        match first_direct_child(files, rel + "/"@, ".go"@) {
            Some(f) => Some(f),
            None => if files.contains(canon_spec(rel + ".go"@)) {
                Some(canon_spec(rel + ".go"@))
            } else {
                None
            },
        }
    }
}

/// Resolver of Go imports.
#[derive(Debug)]
pub struct GoResolver;

impl GoResolver {
    /// The module path of the project, as far as the file list tells: a
    /// `go.mod` among the files is known to exist but its text is not at
    /// hand, so the module path is never known here.
    pub fn find_module(known_files: &FileSet) -> (r: Option<String>)
        ensures
            r is None,
    {
        let files = known_files.paths();
        let mut i: usize = 0;
        while i < files.len()
            decreases files.len() - i,
        {
            if crate::text::eq(&files[i].file_name(), &chars_of("go.mod")) {
                return None;
            }
            i += 1;
        }
        None
    }

    /// Whether an import names the standard library.
    pub fn is_stdlib(import_path: &str) -> (r: bool)
        ensures
            r == go_is_stdlib(import_path@),
    {
        find_char(&chars_of(import_path), '.').is_none()
    }

    /// Whether an import lies outside the module.
    pub fn is_external(import_path: &str, module: Option<&str>) -> (r: bool)
        ensures
            r == go_is_external(import_path@, match module { Some(m) => Some(m@), None => None }),
    {
        if Self::is_stdlib(import_path) {
            return false;
        }
        match module {
            Some(mp) => !crate::text::starts_with(&chars_of(import_path), &chars_of(mp)),
            None => true,
        }
    }

    /// Resolve an import within module `module`.
    pub fn resolve_in_module(import_path: &str, module: Option<&str>, known_files: &FileSet) -> (r: Option<CanonicalPath>)
        ensures
            match r {
                Some(p) => go_resolve_spec(import_path@, match module { Some(m) => Some(m@), None => None }, known_files@) == Some(p@),
                None => go_resolve_spec(import_path@, match module { Some(m) => Some(m@), None => None }, known_files@) is None,
            },
    {
        if Self::is_stdlib(import_path) || Self::is_external(import_path, module) {
            return None;
        }
        let pv = chars_of(import_path);
        let rel = match module {
            Some(mp) => match strip_prefix(&pv, &chars_of(mp)) {
                Some(rest) => if rest.len() > 0 && rest[0] == '/' {
                    crate::text::slice(&rest, 1, rest.len())
                } else {
                    pv.clone()
                },
                None => pv.clone(),
            },
            None => pv.clone(),
        };
        assert(rel@ == go_relative(import_path@, match module { Some(m) => Some(m@), None => None }));
        let mut prefix = rel.clone();
        prefix.push('/');
        proof {
            reveal_strlit("/");
        }
        assert(prefix@ =~= rel@ + "/"@);
        match known_files.find_direct_child(&prefix, &chars_of(".go")) {
            Some(f) => Some(f),
            None => {
                let mut d = rel.clone();
                crate::text::push_all(&mut d, &chars_of(".go"));
                let direct = CanonicalPath::from_chars(&d);
                if known_files.contains(&direct) {
                    Some(direct)
                } else {
                    None
                }
            },
        }
    }
}

impl ImportResolver for GoResolver {
    fn resolve(
        &self,
        import: &RawImport,
        _from_file: &CanonicalPath,
        known_files: &FileSet,
        _workspace: Option<&WorkspaceInfo>,
    ) -> (r: Option<CanonicalPath>)
        ensures
            r is None,
            go_resolve_spec(import.path@, None, known_files@) is None,
    {
        if Self::is_stdlib(import.path.as_str()) {
            return None;
        }
        let module = Self::find_module(known_files);
        let mp: Option<&str> = match &module {
            Some(m) => Some(m.as_str()),
            None => None,
        };
        Self::resolve_in_module(import.path.as_str(), mp, known_files)
    }
}


// ---------------------------------------------------------------------------
// Parsing
// ---------------------------------------------------------------------------

/// An import path without its quotes: trimmed, then stripped of matching
/// double quotes or backquotes.
pub open spec fn strip_go_quotes(s: Seq<char>) -> Seq<char> {
    let s = trim_spec(s);
    if s.len() >= 2 && ((s[0] == '"' && s.last() == '"') || (s[0] == '`' && s.last() == '`')) {
        s.subrange(1, s.len() - 1)
    } else {
        s
    }
}

/// The `name` field of an import spec (alias, `.` or `_`), as a list of
/// at most one name.
pub open spec fn go_alias(t: &SyntaxTree, n: int) -> Seq<Seq<char>> {
    match t.field_child(n, "name"@) {
        Some(m) => seq![t.text_at(m)],
        None => Seq::empty(),
    }
}

/// The import of one `import_spec` node: its `path` field unquoted, and
/// its `name` field (alias, `.` or `_`) as the one symbol when present.
pub open spec fn go_spec_import(t: &SyntaxTree, n: int) -> Seq<ImportView> {
    match t.field_child(n, "path"@) {
        Some(p) => {
            let path = strip_go_quotes(t.text_at(p));
            if path.len() == 0 {
                Seq::empty()
            } else {
                seq![
                    ImportView {
                        path,
                        symbols: match t.field_child(n, "name"@) {
                            Some(m) => seq![t.text_at(m)],
                            None => Seq::empty(),
                        },
                        is_type_only: false,
                        kind: ImportKind::Regular,
                    },
                ]
            }
        },
        None => Seq::empty(),
    }
}

/// The import of a child of an import spec list.
pub open spec fn go_list_item_f(t: &SyntaxTree) -> spec_fn(usize) -> Seq<ImportView> {
    |s: usize|
        if t.kind_of(s as int) == "import_spec"@ {
            go_spec_import(t, s as int)
        } else {
            Seq::empty()
        }
}

/// The imports of a child of an import declaration: a single spec, or a
/// parenthesized list of specs.
pub open spec fn go_decl_child(t: &SyntaxTree, c: int) -> Seq<ImportView> {
    (if t.kind_of(c) == "import_spec"@ {
        go_spec_import(t, c)
    } else {
        Seq::empty()
    }) + (if t.kind_of(c) == "import_spec_list"@ {
        flat_map(t.children_of(c), go_list_item_f(t))
    } else {
        Seq::empty()
    })
}

/// `go_decl_child` as a function of the child.
pub open spec fn go_decl_child_f(t: &SyntaxTree) -> spec_fn(usize) -> Seq<ImportView> {
    |c: usize| go_decl_child(t, c as int)
}

/// The imports of a top-level declaration.
pub open spec fn go_decl_f(t: &SyntaxTree) -> spec_fn(usize) -> Seq<ImportView> {
    |n: usize|
        if t.kind_of(n as int) == "import_declaration"@ {
            flat_map(t.children_of(n as int), go_decl_child_f(t))
        } else {
            Seq::empty()
        }
}

/// The imports of a Go file, in order.
pub open spec fn go_imports_spec(t: &SyntaxTree) -> Seq<ImportView> {
    flat_map(t.children_of(0), go_decl_f(t))
}

/// `strip_go_quotes` on characters.
fn strip_go_quotes_exec(v: &Vec<char>) -> (r: Vec<char>)
    ensures
        r@ == strip_go_quotes(v@),
{
    let s = trim(v);
    let n = s.len();
    if n >= 2 && ((s[0] == '"' && s[n - 1] == '"') || (s[0] == '`' && s[n - 1] == '`')) {
        crate::text::slice(&s, 1, n - 1)
    } else {
        s
    }
}

/// The alias of import spec `n`.
fn go_alias_exec(t: &SyntaxTree, n: usize) -> (r: Vec<String>)
    requires
        n < t.size(),
    ensures
        strings_view(r@) == go_alias(t, n as int),
{
    let mut symbols: Vec<String> = Vec::new();
    match t.child_by_field(n, "name") {
        Some(m) => {
            symbols.push(t.text(m));
            assert(strings_view(symbols@) =~= seq![t.text_at(m as int)]);
        },
        None => {
            assert(strings_view(symbols@) =~= Seq::<Seq<char>>::empty());
        },
    }
    symbols
}

/// Push the import of import spec `n`.
#[verifier::spinoff_prover]
fn push_spec_import(t: &SyntaxTree, n: usize, out: &mut Vec<RawImport>)
    requires
        n < t.size(),
    ensures
        imports_view(final(out)@) == imports_view(old(out)@) + go_spec_import(t, n as int),
{
    let ghost before = imports_view(out@);
    match t.child_by_field(n, "path") {
        Some(p) => {
            let path = strip_go_quotes_exec(&chars_of(t.text(p).as_str()));
            if path.len() > 0 {
                let symbols = go_alias_exec(t, n);
                out.push(RawImport { path: string_of(&path), symbols, is_type_only: false, kind: ImportKind::Regular });
            }
        },
        None => {},
    }
    assert(imports_view(out@) =~= before + go_spec_import(t, n as int));
}

/// Push the imports of the specs of import spec list `c`.
fn push_spec_list(t: &SyntaxTree, c: usize, out: &mut Vec<RawImport>)
    requires
        c < t.size(),
    ensures
        imports_view(final(out)@) == imports_view(old(out)@) + flat_map(t.children_of(c as int), go_list_item_f(t)),
{
    let ghost m3 = imports_view(out@);
    let items = t.children(c);
    let mut m: usize = 0;
    while m < items.len()
        invariant
            0 <= m <= items@.len(),
            items@ == t.children_of(c as int),
            forall|q: int| 0 <= q < items@.len() ==> c < #[trigger] items@[q] < t.size(),
            imports_view(out@) == m3 + flat_map(items@.take(m as int), go_list_item_f(t)),
        decreases items.len() - m,
    {
        proof {
            lemma_flat_map_step(items@, go_list_item_f(t), m as int);
        }
        let s = items[m];
        let ghost m4 = imports_view(out@);
        if t.is_kind(s, "import_spec") {
            push_spec_import(t, s, out);
        }
        assert(imports_view(out@) =~= m4 + (go_list_item_f(t))(s));
        m += 1;
    }
    assert(items@.take(items@.len() as int) =~= items@);
}

/// Push the imports of one child of an import declaration.
fn push_decl_child(t: &SyntaxTree, c: usize, out: &mut Vec<RawImport>)
    requires
        c < t.size(),
    ensures
        imports_view(final(out)@) == imports_view(old(out)@) + (go_decl_child_f(t))(c),
{
    let ghost m2 = imports_view(out@);
    if t.is_kind(c, "import_spec") {
        push_spec_import(t, c, out);
    }
    if t.is_kind(c, "import_spec_list") {
        push_spec_list(t, c, out);
    }
    assert(imports_view(out@) =~= m2 + go_decl_child(t, c as int));
}

/// Push the imports of import declaration `n`.
fn push_decl(t: &SyntaxTree, n: usize, out: &mut Vec<RawImport>)
    requires
        n < t.size(),
    ensures
        imports_view(final(out)@) == imports_view(old(out)@) + flat_map(t.children_of(n as int), go_decl_child_f(t)),
{
    let ghost mid = imports_view(out@);
    let dch = t.children(n);
    let mut j: usize = 0;
    while j < dch.len()
        invariant
            0 <= j <= dch@.len(),
            dch@ == t.children_of(n as int),
            forall|m: int| 0 <= m < dch@.len() ==> n < #[trigger] dch@[m] < t.size(),
            imports_view(out@) == mid + flat_map(dch@.take(j as int), go_decl_child_f(t)),
        decreases dch.len() - j,
    {
        proof {
            lemma_flat_map_step(dch@, go_decl_child_f(t), j as int);
        }
        push_decl_child(t, dch[j], out);
        j += 1;
    }
    assert(dch@.take(dch@.len() as int) =~= dch@);
}

/// Parser of Go files.
#[derive(Debug)]
pub struct GoParser;

impl GoParser {
    /// The parser.
    pub fn new() -> GoParser {
        GoParser
    }

    /// The language name.
    pub fn language(&self) -> (r: &'static str)
        ensures
            r@ == "go"@,
    {
        "go"
    }

    /// The imports of a Go file.
    pub fn extract_imports(&self, t: &SyntaxTree) -> (r: Vec<RawImport>)
        ensures
            imports_view(r@) == go_imports_spec(t),
    {
        let mut out: Vec<RawImport> = Vec::new();
        let _ = t.len();
        let ch = t.children(0);
        let mut k: usize = 0;
        while k < ch.len()
            invariant
                0 <= k <= ch@.len(),
                ch@ == t.children_of(0),
                forall|j: int| 0 <= j < ch@.len() ==> 0 < #[trigger] ch@[j] < t.size(),
                imports_view(out@) == flat_map(ch@.take(k as int), go_decl_f(t)),
            decreases ch.len() - k,
        {
            proof {
                lemma_flat_map_step(ch@, go_decl_f(t), k as int);
            }
            let n = ch[k];
            let ghost mid = imports_view(out@);
            if t.is_kind(n, "import_declaration") {
                push_decl(t, n, &mut out);
            }
            assert(imports_view(out@) =~= mid + (go_decl_f(t))(n));
            k += 1;
        }
        assert(ch@.take(ch@.len() as int) =~= ch@);
        out
    }

    /// The exports of a Go file: none, since Go exports by capitalization.
    pub fn extract_exports(&self, t: &SyntaxTree) -> (r: Vec<RawExport>)
        ensures
            r@.len() == 0,
    {
        Vec::new()
    }
}

} // verus!
