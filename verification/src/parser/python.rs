//! Python: imports, exports and symbols of a module, and module resolution.
use vstd::prelude::*;
use crate::model::{canon_spec, CanonicalPath, FileSet, WorkspaceInfo};
use crate::parser::config::pyproject::PyProjectConfig;
use crate::parser::traits::{
    exports_view, imports_view, strings_view, symbols_view, ExportView, ImportKind, ImportResolver, ImportView,
    RawExport, RawImport, SymbolDef, SymbolKind, SymbolView, Visibility,
};
use crate::parser::typescript::{clone_opt_string, line_sig, line_sig_exec, opt_str, span_exec, span_of, upper_case_const, upper_case_const_exec};
use crate::syntax::{first_child_of_kind, first_some, flat_map, lemma_first_some_step, lemma_flat_map_step, SyntaxTree};
use crate::text::string_of;
use crate::parser::typescript::{first_known, from_dir};
use crate::text::{chars_of, join, join_spec, replace_char, replace_char_spec, slice, split_char, split_spec, views};

verus! {

/// Number of leading dots.
pub open spec fn leading_dots(s: Seq<char>) -> nat
    decreases s.len(),
{
    if s.len() > 0 && s[0] == '.' {
        1 + leading_dots(s.drop_first())
    } else {
        0
    }
}

/// `s` with its last `n` elements removed (all of them when there are fewer).
pub open spec fn drop_n<A>(s: Seq<A>, n: nat) -> Seq<A> {
    if n >= s.len() {
        Seq::empty()
    } else {
        s.take(s.len() - n)
    }
}

/// The non-empty pieces of `s`.
pub open spec fn non_empty(s: Seq<Seq<char>>) -> Seq<Seq<char>>
    decreases s.len(),
{
    if s.len() == 0 {
        Seq::empty()
    } else {
        non_empty(s.drop_last()) + if s.last().len() > 0 {
            seq![s.last()]
        } else {
            Seq::empty()
        }
    }
}

/// The module path a relative import names: one dot is the importing
/// file's package, each further dot one directory up, then the dotted rest.
pub open spec fn relative_base(specifier: Seq<char>, from: Seq<char>) -> Seq<char> {
    let n = leading_dots(specifier);
    let rest = specifier.skip(n as int);
    let dir = from_dir(from);
    let segs = if dir.len() == 0 {
        Seq::empty()
    } else {
        split_spec(dir, '/')
    };
    let kept = drop_n(segs, (n - 1) as nat);
    join_spec(kept + non_empty(split_spec(rest, '.')), '/')
}

/// A module name with no dot splits into itself alone.
proof fn lemma_plain_name(m: Seq<char>)
    requires
        m.len() > 0,
        forall|i: int| 0 <= i < m.len() ==> m[i] != '.',
    ensures
        non_empty(split_spec(m, '.')) == seq![m],
{
    crate::text::lemma_find_char(m, '.');
    assert(split_spec(m, '.') == seq![m]);
    let one = seq![m];
    assert(one.drop_last() =~= Seq::<Seq<char>>::empty());
    assert(non_empty(one.drop_last()) =~= Seq::<Seq<char>>::empty());
    assert(one.last() == m);
    assert(non_empty(one) == non_empty(one.drop_last()) + seq![m]);
    assert(non_empty(one) =~= one);
}

/// A relative import with a single leading dot names a module in the
/// importing file's own directory: `.m` imported from `d/f.py` is the
/// module path `d/m`, and from a file at the project root it is `m`. So
/// the Python resolver probes for `m` beside the importing file.
pub proof fn lemma_one_dot_is_own_directory(m: Seq<char>, from: Seq<char>, src_layout: bool, files: Seq<Seq<char>>)
    requires
        m.len() > 0,
        forall|i: int| 0 <= i < m.len() ==> m[i] != '.',
    ensures
        from_dir(from).len() > 0 ==> relative_base(seq!['.'] + m, from) == from_dir(from) + seq!['/'] + m,
        from_dir(from).len() == 0 ==> relative_base(seq!['.'] + m, from) == m,
        py_resolve_spec(src_layout, seq!['.'] + m, from, files) == py_probe(relative_base(seq!['.'] + m, from), files),
{
    let spec = seq!['.'] + m;
    assert(spec.drop_first() =~= m);
    assert(leading_dots(m) == 0);
    assert(leading_dots(spec) == 1);
    assert(spec.skip(1) =~= m);
    lemma_plain_name(m);
    let dir = from_dir(from);
    if dir.len() == 0 {
        assert(drop_n(Seq::<Seq<char>>::empty(), 0) =~= Seq::<Seq<char>>::empty());
        assert(Seq::<Seq<char>>::empty() + seq![m] =~= seq![m]);
    } else {
        crate::text::lemma_join_split(dir, '/');
        let segs = split_spec(dir, '/');
        assert(drop_n(segs, 0) =~= segs);
        let all = segs + seq![m];
        assert(all.drop_last() =~= segs);
        assert(all.last() == m);
        assert(join_spec(all, '/') == join_spec(segs, '/').push('/') + m);
        assert(dir.push('/') + m =~= dir + seq!['/'] + m);
    }
}

/// A second leading dot goes one directory up: `..m` imported from a file
/// in `p/q` is the module path `p/m`, and from a file in a top-level
/// directory it is `m`.
pub proof fn lemma_two_dots_is_parent_directory(m: Seq<char>, from: Seq<char>, p: Seq<char>, q: Seq<char>)
    requires
        m.len() > 0,
        forall|i: int| 0 <= i < m.len() ==> m[i] != '.',
        forall|i: int| 0 <= i < q.len() ==> q[i] != '/',
        from_dir(from) == p + seq!['/'] + q || (p.len() == 0 && from_dir(from) == q && q.len() > 0),
    ensures
        p.len() > 0 && from_dir(from) == p + seq!['/'] + q ==> relative_base(seq!['.', '.'] + m, from) == p + seq!['/'] + m,
        p.len() == 0 && from_dir(from) == q && q.len() > 0 ==> relative_base(seq!['.', '.'] + m, from) == m,
{
    let spec = seq!['.', '.'] + m;
    assert(spec.drop_first() =~= seq!['.'] + m);
    assert((seq!['.'] + m).drop_first() =~= m);
    assert(leading_dots(m) == 0);
    assert(leading_dots(seq!['.'] + m) == 1);
    assert(leading_dots(spec) == 2);
    assert(spec.skip(2) =~= m);
    lemma_plain_name(m);
    let dir = from_dir(from);
    if p.len() > 0 && dir == p + seq!['/'] + q {
        crate::text::lemma_split_last(p, q, '/');
        crate::text::lemma_join_split(p, '/');
        let segs = split_spec(dir, '/');
        assert(segs == split_spec(p, '/') + seq![q]);
        assert(drop_n(segs, 1) =~= split_spec(p, '/'));
        let all = split_spec(p, '/') + seq![m];
        assert(all.drop_last() =~= split_spec(p, '/'));
        assert(join_spec(all, '/') == join_spec(split_spec(p, '/'), '/').push('/') + m);
        assert(p.push('/') + m =~= p + seq!['/'] + m);
    } else if p.len() == 0 && dir == q && q.len() > 0 {
        crate::text::lemma_find_char(q, '/');
        assert(split_spec(q, '/') == seq![q]);
        assert(drop_n(seq![q], 1) =~= Seq::<Seq<char>>::empty());
        assert(Seq::<Seq<char>>::empty() + seq![m] =~= seq![m]);
    }
}

/// The files tried for module path `base`.
pub open spec fn py_candidates(base: Seq<char>) -> Seq<Seq<char>> {
    seq![
        canon_spec(base + ".py"@),
        canon_spec(base + ".pyi"@),
        canon_spec(base + "/__init__.py"@),
        canon_spec(base + "/__init__.pyi"@),
    ]
}

/// The module file for path `base`, if known.
pub open spec fn py_probe(base: Seq<char>, files: Seq<Seq<char>>) -> Option<Seq<char>> {
    first_known(py_candidates(base), files)
}

/// What the Python resolver makes of an import.
pub open spec fn py_resolve_spec(src_layout: bool, specifier: Seq<char>, from: Seq<char>, files: Seq<Seq<char>>) -> Option<Seq<char>> {
    if specifier.len() > 0 && specifier[0] == '.' {
        py_probe(relative_base(specifier, from), files)
    } else {
        let path = replace_char_spec(specifier, '.', '/');
        if src_layout && py_probe("src/"@ + path, files) is Some {
            py_probe("src/"@ + path, files)
        } else {
            py_probe(path, files)
        }
    }
}

/// Resolver of Python imports.
#[derive(Debug)]
pub struct PythonResolver {
    /// Project configuration, for src-layout resolution.
    pub config: Option<PyProjectConfig>,
}

/// `base` followed by `tail`, canonical.
fn canon_cat(base: &Vec<char>, tail: &str) -> (r: Vec<char>)
    ensures
        r@ == canon_spec(base@ + tail@),
{
    let mut v = slice(base, 0, base.len());
    crate::text::push_all(&mut v, &chars_of(tail));
    assert(base@.subrange(0, base@.len() as int) =~= base@);
    crate::model::canonicalize(&v)
}

/// The module file for path `base`, if known.
fn probe_python_path(base: &Vec<char>, files: &FileSet) -> (r: Option<CanonicalPath>)
    ensures
        match r {
            Some(p) => py_probe(base@, files@) == Some(p@),
            None => py_probe(base@, files@) is None,
        },
{
    let mut c: Vec<Vec<char>> = Vec::new();
    c.push(canon_cat(base, ".py"));
    c.push(canon_cat(base, ".pyi"));
    c.push(canon_cat(base, "/__init__.py"));
    c.push(canon_cat(base, "/__init__.pyi"));
    assert(views(c@) =~= py_candidates(base@));
    crate::parser::typescript::first_known_files(&c, files)
}

/// The module path of a relative import.
fn relative_base_exec(specifier: &Vec<char>, from: &CanonicalPath) -> (r: Vec<char>)
    requires
        specifier@.len() > 0,
        specifier@[0] == '.',
    ensures
        r@ == relative_base(specifier@, from@),
{
    assert(specifier@.skip(0) =~= specifier@);
    let mut n: usize = 0;
    while n < specifier.len() && specifier[n] == '.'
        invariant
            0 <= n <= specifier@.len(),
            forall|k: int| 0 <= k < n ==> specifier@[k] == '.',
            leading_dots(specifier@) == n + leading_dots(specifier@.skip(n as int)),
        decreases specifier.len() - n,
    {
        assert(specifier@.skip(n as int).drop_first() =~= specifier@.skip(n + 1));
        n += 1;
    }
    assert(leading_dots(specifier@.skip(n as int)) == 0);
    assert(n >= 1);
    assert(leading_dots(specifier@) == n);
    let rest = slice(specifier, n, specifier.len());
    assert(rest@ == specifier@.skip(n as int));
    let dir = match from.parent() {
        Some(d) => d,
        None => Vec::new(),
    };
    assert(dir@ == from_dir(from@));
    let mut segs: Vec<Vec<char>> = if dir.len() == 0 {
        Vec::new()
    } else {
        split_char(&dir, '/')
    };
    let ghost segs0 = views(segs@);
    assert(segs0 == if dir@.len() == 0 { Seq::<Seq<char>>::empty() } else { split_spec(dir@, '/') });
    let mut k: usize = 1;
    while k < n
        invariant
            1 <= k <= n,
            views(segs@) == drop_n(segs0, (k - 1) as nat),
        decreases n - k,
    {
        let ghost before = views(segs@);
        if segs.len() > 0 {
            segs.pop();
            assert(views(segs@) =~= before.drop_last());
        }
        proof {
            let m = (k - 1) as nat;
            if m + 1 >= segs0.len() {
                assert(views(segs@) =~= drop_n(segs0, m + 1));
            } else {
                assert(views(segs@) =~= drop_n(segs0, m + 1));
            }
        }
        k += 1;
    }
    assert(views(segs@) == drop_n(segs0, (n - 1) as nat));
    let parts = split_char(&rest, '.');
    let ghost ps = views(parts@);
    let ghost base_segs = views(segs@);
    let mut i: usize = 0;
    while i < parts.len()
        invariant
            0 <= i <= parts@.len(),
            ps == views(parts@),
            views(segs@) == base_segs + non_empty(ps.take(i as int)),
        decreases parts.len() - i,
    {
        proof {
            assert(ps.take(i + 1).drop_last() =~= ps.take(i as int));
        }
        let ghost before = views(segs@);
        if parts[i].len() > 0 {
            segs.push(slice(&parts[i], 0, parts[i].len()));
            assert(parts@[i as int]@.subrange(0, parts@[i as int]@.len() as int) =~= parts@[i as int]@);
            assert(views(segs@) =~= before.push(ps[i as int]));
        }
        assert(views(segs@) =~= base_segs + non_empty(ps.take(i + 1)));
        i += 1;
    }
    assert(ps.take(ps.len() as int) =~= ps);
    assert(views(segs@) == drop_n(segs0, (n - 1) as nat) + non_empty(split_spec(rest@, '.')));
    join(&segs, '/')
}

impl PythonResolver {
    /// A resolver without project configuration.
    pub fn new() -> (r: PythonResolver)
        ensures
            r.config is None,
    {
        PythonResolver { config: None }
    }

    /// A resolver that knows the project configuration.
    pub fn with_config(config: PyProjectConfig) -> (r: PythonResolver)
        ensures
            r.config == Some(config),
    {
        PythonResolver { config: Some(config) }
    }

    /// Whether the project uses a src layout.
    pub open spec fn src_layout(&self) -> bool {
        match self.config {
            Some(c) => c.src_layout,
            None => false,
        }
    }
}

impl ImportResolver for PythonResolver {
    fn resolve(
        &self,
        import: &RawImport,
        from_file: &CanonicalPath,
        known_files: &FileSet,
        _workspace: Option<&WorkspaceInfo>,
    ) -> (r: Option<CanonicalPath>)
        ensures
            match r {
                Some(p) => py_resolve_spec(self.src_layout(), import.path@, from_file@, known_files@) == Some(p@),
                None => py_resolve_spec(self.src_layout(), import.path@, from_file@, known_files@) is None,
            },
    {
        let spec_v = chars_of(import.path.as_str());
        if spec_v.len() > 0 && spec_v[0] == '.' {
            let base = relative_base_exec(&spec_v, from_file);
            return probe_python_path(&base, known_files);
        }
        let path = replace_char(&spec_v, '.', '/');
        let src = match &self.config {
            Some(c) => c.src_layout,
            None => false,
        };
        if src {
            let mut sp = chars_of("src/");
            crate::text::push_all(&mut sp, &path);
            match probe_python_path(&sp, known_files) {
                Some(p) => {
                    return Some(p);
                },
                None => {},
            }
        }
        probe_python_path(&path, known_files)
    }
}


// ---------------------------------------------------------------------------
// Imports
// ---------------------------------------------------------------------------

/// Whether a module is `__future__`.
pub open spec fn is_future(name: Seq<char>) -> bool {
    name == "__future__"@
}

/// An import of module `path` with no names.
pub open spec fn module_import(path: Seq<char>, type_only: bool) -> ImportView {
    ImportView { path, symbols: Seq::empty(), is_type_only: type_only, kind: ImportKind::Regular }
}

/// The imports one child of an `import` statement names: a dotted name, or
/// the dotted name of an aliased import; `__future__` left out when asked.
pub open spec fn import_child_f(t: &SyntaxTree, type_only: bool, skip_future: bool) -> spec_fn(usize) -> Seq<ImportView> {
    |c: usize| {
        let direct = if t.kind_of(c as int) == "dotted_name"@ {
            match t.text_opt_at(c as int) {
                Some(m) => if skip_future && is_future(m) {
                    Seq::empty()
                } else {
                    seq![module_import(m, type_only)]
                },
                None => Seq::empty(),
            }
        } else {
            Seq::empty()
        };
        let aliased = if t.kind_of(c as int) == "aliased_import"@ {
            match first_child_of_kind(t, c as int, "dotted_name"@) {
                Some(d) => match t.text_opt_at(d as int) {
                    Some(m) => if skip_future && is_future(m) {
                        Seq::empty()
                    } else {
                        seq![module_import(m, type_only)]
                    },
                    None => Seq::empty(),
                },
                None => Seq::empty(),
            }
        } else {
            Seq::empty()
        };
        direct + aliased
    }
}

/// The number of dots in `s`.
pub open spec fn dots_in(s: Seq<char>) -> nat
    decreases s.len(),
{
    if s.len() == 0 {
        0
    } else {
        dots_in(s.drop_last()) + if s.last() == '.' {
            1nat
        } else {
            0nat
        }
    }
}

/// The dots of an `import_prefix` child.
pub open spec fn prefix_dots_f(t: &SyntaxTree) -> spec_fn(usize) -> Option<nat> {
    |c: usize|
        if t.kind_of(c as int) == "import_prefix"@ {
            match t.text_opt_at(c as int) {
                Some(s) => Some(dots_in(s)),
                None => None,
            }
        } else {
            None
        }
}

/// The dots of a `relative_import` child.
pub open spec fn relative_dots_f(t: &SyntaxTree) -> spec_fn(usize) -> Option<nat> {
    |c: usize|
        if t.kind_of(c as int) == "relative_import"@ {
            first_some(t.children_of(c as int), prefix_dots_f(t))
        } else {
            None
        }
}

/// How many levels up a `from` import reaches: the dots of its relative part.
pub open spec fn relative_dots(t: &SyntaxTree, n: int) -> nat {
    match first_some(t.children_of(n), relative_dots_f(t)) {
        Some(d) => d,
        None => 0,
    }
}

/// What a child of a `from` import says of the module name, if it is the
/// dotted name or the relative part.
pub open spec fn module_name_f(t: &SyntaxTree) -> spec_fn(usize) -> Option<Option<Seq<char>>> {
    |c: usize|
        if t.kind_of(c as int) == "dotted_name"@ {
            Some(t.text_opt_at(c as int))
        } else if t.kind_of(c as int) == "relative_import"@ {
            Some(
                match first_child_of_kind(t, c as int, "dotted_name"@) {
                    Some(d) => t.text_opt_at(d as int),
                    None => None,
                },
            )
        } else {
            None
        }
}

/// The module a `from` import names, without its dots.
pub open spec fn module_name(t: &SyntaxTree, n: int) -> Option<Seq<char>> {
    match first_some(t.children_of(n), module_name_f(t)) {
        Some(m) => m,
        None => None,
    }
}

/// The name one child after `import` in a `from` import brings in.
pub open spec fn from_name(t: &SyntaxTree, c: int) -> Seq<Seq<char>> {
    let k = t.kind_of(c);
    if k == "dotted_name"@ || k == "identifier"@ {
        match t.text_opt_at(c) {
            Some(s) => seq![s],
            None => Seq::empty(),
        }
    } else if k == "aliased_import"@ {
        let o = match first_child_of_kind(t, c, "dotted_name"@) {
            Some(d) => Some(d),
            None => first_child_of_kind(t, c, "identifier"@),
        };
        match o {
            Some(d) => match t.text_opt_at(d as int) {
                Some(s) => seq![s],
                None => Seq::empty(),
            },
            None => Seq::empty(),
        }
    } else if k == "wildcard_import"@ {
        seq!["*"@]
    } else {
        Seq::empty()
    }
}

/// The names brought in by children `ch`, those after the `import`
/// keyword only; `past` says whether it was already seen.
pub open spec fn from_names_rec(t: &SyntaxTree, ch: Seq<usize>, past: bool) -> Seq<Seq<char>>
    decreases ch.len(),
{
    if ch.len() == 0 {
        Seq::empty()
    } else if t.kind_of(ch[0] as int) == "import"@ {
        from_names_rec(t, ch.drop_first(), true)
    } else if !past {
        from_names_rec(t, ch.drop_first(), false)
    } else {
        from_name(t, ch[0] as int) + from_names_rec(t, ch.drop_first(), true)
    }
}

/// `n` dots.
pub open spec fn dots(n: nat) -> Seq<char> {
    Seq::new(n, |i: int| '.')
}

/// The import of a `from` statement: its dots and module name, the names it
/// brings in; none when it has neither dots nor a module name, or (when
/// asked) for `__future__`.
pub open spec fn from_import(t: &SyntaxTree, n: int, type_only: bool, skip_future: bool) -> Seq<ImportView> {
    let d = relative_dots(t, n);
    let m = module_name(t, n);
    let path = if d > 0 {
        Some(
            dots(d) + match m {
                Some(x) => x,
                None => Seq::empty(),
            },
        )
    } else {
        m
    };
    match path {
        Some(p) => if skip_future && m == Some("__future__"@) {
            Seq::empty()
        } else {
            seq![
                ImportView {
                    path: p,
                    symbols: from_names_rec(t, t.children_of(n), false),
                    is_type_only: type_only,
                    kind: ImportKind::Regular,
                },
            ]
        },
        None => Seq::empty(),
    }
}

/// Whether a child names `TYPE_CHECKING`.
pub open spec fn names_type_checking(t: &SyntaxTree, c: int) -> bool {
    (t.kind_of(c) == "identifier"@ || t.kind_of(c) == "attribute"@) && match t.text_opt_at(c) {
        Some(s) => s == "TYPE_CHECKING"@ || ".TYPE_CHECKING"@.is_suffix_of(s),
        None => false,
    }
}

/// Whether an `if` statement tests `TYPE_CHECKING`.
pub open spec fn is_type_checking(t: &SyntaxTree, n: int) -> bool {
    exists|j: int| 0 <= j < t.children_of(n).len() && names_type_checking(t, #[trigger] t.children_of(n)[j] as int)
}

/// The type-only imports of one statement of a `TYPE_CHECKING` block.
pub open spec fn checked_stmt_f(t: &SyntaxTree) -> spec_fn(usize) -> Seq<ImportView> {
    |s: usize|
        (if t.kind_of(s as int) == "import_statement"@ {
            flat_map(t.children_of(s as int), import_child_f(t, true, false))
        } else {
            Seq::empty()
        }) + (if t.kind_of(s as int) == "import_from_statement"@ {
            from_import(t, s as int, true, false)
        } else {
            Seq::empty()
        })
}

/// The imports of an `if TYPE_CHECKING:` block, all type-only.
pub open spec fn checked_imports(t: &SyntaxTree, n: int) -> Seq<ImportView> {
    if is_type_checking(t, n) {
        match first_child_of_kind(t, n, "block"@) {
            Some(b) => flat_map(t.children_of(b as int), checked_stmt_f(t)),
            None => Seq::empty(),
        }
    } else {
        Seq::empty()
    }
}

/// The imports of one top-level statement.
pub open spec fn py_stmt_f(t: &SyntaxTree) -> spec_fn(usize) -> Seq<ImportView> {
    |n: usize|
        (if t.kind_of(n as int) == "import_statement"@ {
            flat_map(t.children_of(n as int), import_child_f(t, false, true))
        } else {
            Seq::empty()
        }) + (if t.kind_of(n as int) == "import_from_statement"@ {
            from_import(t, n as int, false, true)
        } else {
            Seq::empty()
        }) + (if t.kind_of(n as int) == "if_statement"@ {
            checked_imports(t, n as int)
        } else {
            Seq::empty()
        })
}

/// The imports of a Python module, in the order of its statements.
pub open spec fn py_imports_spec(t: &SyntaxTree) -> Seq<ImportView> {
    flat_map(t.children_of(0), py_stmt_f(t))
}

/// Whether `c` is a node of `kind`.
fn kind_is(t: &SyntaxTree, c: usize, kind: &str) -> (r: bool)
    requires
        c < t.size(),
    ensures
        r == (t.kind_of(c as int) == kind@),
{
    t.is_kind(c, kind)
}

/// An import of module `m` with no names.
fn module_import_exec(m: &Vec<char>, type_only: bool) -> (r: RawImport)
    ensures
        r@ == module_import(m@, type_only),
{
    let symbols: Vec<String> = Vec::new();
    assert(strings_view(symbols@) =~= Seq::<Seq<char>>::empty());
    RawImport { path: string_of(m), symbols, is_type_only: type_only, kind: ImportKind::Regular }
}

/// Push the import of module `m`, unless it is `__future__` and those are skipped.
fn push_module(m: &Vec<char>, type_only: bool, skip_future: bool, out: &mut Vec<RawImport>)
    ensures
        imports_view(final(out)@) == imports_view(old(out)@) + if skip_future && is_future(m@) {
            Seq::empty()
        } else {
            seq![module_import(m@, type_only)]
        },
{
    proof {
        reveal_strlit("__future__");
    }
    let ghost before = out@;
    if !(skip_future && crate::text::eq(m, &crate::text::chars_of("__future__"))) {
        out.push(module_import_exec(m, type_only));
    }
    assert(imports_view(out@) =~= imports_view(before) + if skip_future && is_future(m@) {
        Seq::empty()
    } else {
        seq![module_import(m@, type_only)]
    });
}

/// Push the import that child `c` of an `import` statement names.
fn push_import_child(t: &SyntaxTree, c: usize, type_only: bool, skip_future: bool, out: &mut Vec<RawImport>)
    requires
        c < t.size(),
    ensures
        imports_view(final(out)@) == imports_view(old(out)@) + (import_child_f(t, type_only, skip_future))(c),
{
    let ghost before = imports_view(out@);
    if kind_is(t, c, "dotted_name") {
        match t.text_opt(c) {
            Some(m) => push_module(&m, type_only, skip_future, out),
            None => {},
        }
    }
    if kind_is(t, c, "aliased_import") {
        match t.child_of_kind(c, "dotted_name") {
            Some(d) => match t.text_opt(d) {
                Some(m) => push_module(&m, type_only, skip_future, out),
                None => {},
            },
            None => {},
        }
    }
    assert(imports_view(out@) =~= before + (import_child_f(t, type_only, skip_future))(c));
}

/// Push the imports of the children of `import` statement `n`.
fn push_import_statement(t: &SyntaxTree, n: usize, type_only: bool, skip_future: bool, out: &mut Vec<RawImport>)
    requires
        n < t.size(),
    ensures
        imports_view(final(out)@) == imports_view(old(out)@) + flat_map(t.children_of(n as int), import_child_f(t, type_only, skip_future)),
{
    let ghost before = imports_view(out@);
    let ch = t.children(n);
    let mut k: usize = 0;
    while k < ch.len()
        invariant
            0 <= k <= ch@.len(),
            ch@ == t.children_of(n as int),
            forall|j: int| 0 <= j < ch@.len() ==> n < #[trigger] ch@[j] < t.size(),
            imports_view(out@) == before + flat_map(ch@.take(k as int), import_child_f(t, type_only, skip_future)),
        decreases ch.len() - k,
    {
        proof {
            lemma_flat_map_step(ch@, import_child_f(t, type_only, skip_future), k as int);
        }
        push_import_child(t, ch[k], type_only, skip_future, out);
        k += 1;
    }
    assert(ch@.take(ch@.len() as int) =~= ch@);
}

/// The number of dots in `v`.
fn count_dots(v: &Vec<char>) -> (r: usize)
    ensures
        r == dots_in(v@),
{
    let mut r: usize = 0;
    let mut i: usize = 0;
    while i < v.len()
        invariant
            0 <= i <= v@.len(),
            r == dots_in(v@.take(i as int)),
            r <= i,
        decreases v.len() - i,
    {
        assert(v@.take(i + 1).drop_last() =~= v@.take(i as int));
        if v[i] == '.' {
            r += 1;
        }
        i += 1;
    }
    assert(v@.take(v@.len() as int) =~= v@);
    r
}

/// The dots of the relative part of `from` import `n`.
fn relative_dots_exec(t: &SyntaxTree, n: usize) -> (r: usize)
    requires
        n < t.size(),
    ensures
        r == relative_dots(t, n as int),
{
    let ch = t.children(n);
    let ghost cs = ch@;
    assert(cs.skip(0) =~= cs);
    let mut k: usize = 0;
    while k < ch.len()
        invariant
            0 <= k <= cs.len(),
            cs == ch@,
            cs == t.children_of(n as int),
            forall|j: int| 0 <= j < cs.len() ==> n < #[trigger] cs[j] < t.size(),
            first_some(cs, relative_dots_f(t)) == first_some(cs.skip(k as int), relative_dots_f(t)),
        decreases ch.len() - k,
    {
        proof {
            lemma_first_some_step(cs, relative_dots_f(t), k as int);
        }
        let c = ch[k];
        if kind_is(t, c, "relative_import") {
            let rch = t.children(c);
            let ghost rs = rch@;
            assert(rs.skip(0) =~= rs);
            let mut m: usize = 0;
            while m < rch.len()
                invariant
                    0 <= m <= rs.len(),
                    rs == rch@,
                    k < cs.len(),
                    cs == t.children_of(n as int),
                    cs[k as int] == c,
                    rs == t.children_of(c as int),
                    t.kind_of(c as int) == "relative_import"@,
                    first_some(cs, relative_dots_f(t)) == first_some(cs.skip(k as int), relative_dots_f(t)),
                    first_some(cs.skip(k as int), relative_dots_f(t)) == if (relative_dots_f(t))(cs[k as int]) is Some {
                        (relative_dots_f(t))(cs[k as int])
                    } else {
                        first_some(cs.skip(k + 1), relative_dots_f(t))
                    },
                    forall|j: int| 0 <= j < rs.len() ==> c < #[trigger] rs[j] < t.size(),
                    first_some(rs, prefix_dots_f(t)) == first_some(rs.skip(m as int), prefix_dots_f(t)),
                decreases rch.len() - m,
            {
                proof {
                    lemma_first_some_step(rs, prefix_dots_f(t), m as int);
                }
                let rc = rch[m];
                if kind_is(t, rc, "import_prefix") {
                    match t.text_opt(rc) {
                        Some(v) => {
                            let r = count_dots(&v);
                            assert((prefix_dots_f(t))(rc) == Some(r as nat));
                            assert(first_some(rs, prefix_dots_f(t)) == Some(r as nat));
                            assert((relative_dots_f(t))(c) == Some(r as nat));
                            return r;
                        },
                        None => {},
                    }
                }
                m += 1;
            }
        }
        k += 1;
    }
    0
}

/// The module name of `from` import `n`.
fn module_name_exec(t: &SyntaxTree, n: usize) -> (r: Option<Vec<char>>)
    requires
        n < t.size(),
    ensures
        match r {
            Some(v) => module_name(t, n as int) == Some(v@),
            None => module_name(t, n as int) is None,
        },
{
    let ch = t.children(n);
    let ghost cs = ch@;
    assert(cs.skip(0) =~= cs);
    let mut k: usize = 0;
    while k < ch.len()
        invariant
            0 <= k <= cs.len(),
            cs == ch@,
            cs == t.children_of(n as int),
            forall|j: int| 0 <= j < cs.len() ==> n < #[trigger] cs[j] < t.size(),
            first_some(cs, module_name_f(t)) == first_some(cs.skip(k as int), module_name_f(t)),
        decreases ch.len() - k,
    {
        proof {
            lemma_first_some_step(cs, module_name_f(t), k as int);
        }
        let c = ch[k];
        if kind_is(t, c, "dotted_name") {
            return t.text_opt(c);
        } else if kind_is(t, c, "relative_import") {
            return match t.child_of_kind(c, "dotted_name") {
                Some(d) => t.text_opt(d),
                None => None,
            };
        }
        k += 1;
    }
    None
}

/// Push the name that child `c` of a `from` import brings in.
fn push_from_name(t: &SyntaxTree, c: usize, out: &mut Vec<String>)
    requires
        c < t.size(),
    ensures
        strings_view(final(out)@) == strings_view(old(out)@) + from_name(t, c as int),
{
    let ghost before = strings_view(out@);
    if kind_is(t, c, "dotted_name") || kind_is(t, c, "identifier") {
        match t.text_opt(c) {
            Some(v) => out.push(string_of(&v)),
            None => {},
        }
    } else if kind_is(t, c, "aliased_import") {
        let o = match t.child_of_kind(c, "dotted_name") {
            Some(d) => Some(d),
            None => t.child_of_kind(c, "identifier"),
        };
        match o {
            Some(d) => match t.text_opt(d) {
                Some(v) => out.push(string_of(&v)),
                None => {},
            },
            None => {},
        }
    } else if kind_is(t, c, "wildcard_import") {
        out.push(string_of(&crate::text::chars_of("*")));
    }
    assert(strings_view(out@) =~= before + from_name(t, c as int));
}

/// The names a `from` import brings in.
fn from_names_exec(t: &SyntaxTree, n: usize) -> (r: Vec<String>)
    requires
        n < t.size(),
    ensures
        strings_view(r@) == from_names_rec(t, t.children_of(n as int), false),
{
    let mut out: Vec<String> = Vec::new();
    let ch = t.children(n);
    let ghost cs = ch@;
    assert(cs.skip(0) =~= cs);
    let mut past = false;
    let mut k: usize = 0;
    while k < ch.len()
        invariant
            0 <= k <= cs.len(),
            cs == ch@,
            forall|j: int| 0 <= j < cs.len() ==> n < #[trigger] cs[j] < t.size(),
            strings_view(out@) + from_names_rec(t, cs.skip(k as int), past) == from_names_rec(t, cs, false),
        decreases ch.len() - k,
    {
        assert(cs.skip(k as int)[0] == cs[k as int]);
        assert(cs.skip(k as int).drop_first() =~= cs.skip(k + 1));
        let c = ch[k];
        let ghost before = strings_view(out@);
        if kind_is(t, c, "import") {
            past = true;
        } else if past {
            push_from_name(t, c, &mut out);
            assert(before + from_names_rec(t, cs.skip(k as int), true) =~= strings_view(out@) + from_names_rec(t, cs.skip(k + 1), true));
        }
        k += 1;
    }
    assert(cs.skip(cs.len() as int) =~= Seq::<usize>::empty());
    assert(strings_view(out@) =~= from_names_rec(t, cs, false));
    out
}

/// Push the import of `from` statement `n`.
fn push_from_import(t: &SyntaxTree, n: usize, type_only: bool, skip_future: bool, out: &mut Vec<RawImport>)
    requires
        n < t.size(),
    ensures
        imports_view(final(out)@) == imports_view(old(out)@) + from_import(t, n as int, type_only, skip_future),
{
    let ghost before = imports_view(out@);
    let d = relative_dots_exec(t, n);
    let m = module_name_exec(t, n);
    let symbols = from_names_exec(t, n);
    let path: Option<Vec<char>> = if d > 0 {
        let mut p: Vec<char> = Vec::new();
        let mut i: usize = 0;
        while i < d
            invariant
                0 <= i <= d,
                p@ == dots(i as nat),
            decreases d - i,
        {
            p.push('.');
            assert(p@ =~= dots((i + 1) as nat));
            i += 1;
        }
        match &m {
            Some(x) => crate::text::push_all(&mut p, x),
            None => {},
        }
        assert(p@ =~= dots(d as nat) + match m { Some(x) => x@, None => Seq::<char>::empty() });
        Some(p)
    } else {
        match &m {
            Some(x) => Some(x.clone()),
            None => None,
        }
    };
    proof {
        reveal_strlit("__future__");
    }
    match path {
        Some(p) => {
            let fut = match &m {
                Some(x) => crate::text::eq(x, &crate::text::chars_of("__future__")),
                None => false,
            };
            if !(skip_future && fut) {
                out.push(RawImport { path: string_of(&p), symbols, is_type_only: type_only, kind: ImportKind::Regular });
            }
        },
        None => {},
    }
    assert(imports_view(out@) =~= before + from_import(t, n as int, type_only, skip_future));
}

/// Whether `if` statement `n` tests `TYPE_CHECKING`.
fn is_type_checking_exec(t: &SyntaxTree, n: usize) -> (r: bool)
    requires
        n < t.size(),
    ensures
        r == is_type_checking(t, n as int),
{
    let ch = t.children(n);
    let tc = crate::text::chars_of("TYPE_CHECKING");
    let dtc = crate::text::chars_of(".TYPE_CHECKING");
    let mut k: usize = 0;
    while k < ch.len()
        invariant
            0 <= k <= ch@.len(),
            ch@ == t.children_of(n as int),
            tc@ == "TYPE_CHECKING"@,
            dtc@ == ".TYPE_CHECKING"@,
            forall|j: int| 0 <= j < ch@.len() ==> n < #[trigger] ch@[j] < t.size(),
            forall|j: int| 0 <= j < k ==> !names_type_checking(t, #[trigger] ch@[j] as int),
        decreases ch.len() - k,
    {
        let c = ch[k];
        if kind_is(t, c, "identifier") || kind_is(t, c, "attribute") {
            match t.text_opt(c) {
                Some(v) => {
                    if crate::text::eq(&v, &tc) || crate::text::ends_with(&v, &dtc) {
                        assert(names_type_checking(t, ch@[k as int] as int));
                        return true;
                    }
                },
                None => {},
            }
        }
        k += 1;
    }
    false
}

/// Push the type-only imports of `if` statement `n`.
fn push_checked_imports(t: &SyntaxTree, n: usize, out: &mut Vec<RawImport>)
    requires
        n < t.size(),
    ensures
        imports_view(final(out)@) == imports_view(old(out)@) + checked_imports(t, n as int),
{
    let ghost before = imports_view(out@);
    if !is_type_checking_exec(t, n) {
        assert(imports_view(out@) =~= before + checked_imports(t, n as int));
        return;
    }
    match t.child_of_kind(n, "block") {
        Some(b) => {
            let ch = t.children(b);
            let mut k: usize = 0;
            while k < ch.len()
                invariant
                    0 <= k <= ch@.len(),
                    ch@ == t.children_of(b as int),
                    forall|j: int| 0 <= j < ch@.len() ==> b < #[trigger] ch@[j] < t.size(),
                    imports_view(out@) == before + flat_map(ch@.take(k as int), checked_stmt_f(t)),
                decreases ch.len() - k,
            {
                proof {
                    lemma_flat_map_step(ch@, checked_stmt_f(t), k as int);
                }
                let s = ch[k];
                let ghost mid = imports_view(out@);
                if kind_is(t, s, "import_statement") {
                    push_import_statement(t, s, true, false, out);
                }
                let ghost mid2 = imports_view(out@);
                if kind_is(t, s, "import_from_statement") {
                    push_from_import(t, s, true, false, out);
                }
                assert(imports_view(out@) =~= mid + (checked_stmt_f(t))(s));
                k += 1;
            }
            assert(ch@.take(ch@.len() as int) =~= ch@);
        },
        None => {},
    }
}

/// The imports of a Python module.
pub fn py_extract_imports(t: &SyntaxTree) -> (r: Vec<RawImport>)
    ensures
        imports_view(r@) == py_imports_spec(t),
{
    let mut out: Vec<RawImport> = Vec::new();
    let _ = t.len();
    let ch = t.children(0);
    let mut k: usize = 0;
    while k < ch.len()
        invariant
            0 <= k <= ch@.len(),
            ch@ == t.children_of(0),
            forall|j: int| 0 <= j < ch@.len() ==> 0 < #[trigger] ch@[j] < t.size(),
            imports_view(out@) == flat_map(ch@.take(k as int), py_stmt_f(t)),
        decreases ch.len() - k,
    {
        proof {
            lemma_flat_map_step(ch@, py_stmt_f(t), k as int);
        }
        let n = ch[k];
        let ghost mid = imports_view(out@);
        if kind_is(t, n, "import_statement") {
            push_import_statement(t, n, false, true, &mut out);
        }
        if kind_is(t, n, "import_from_statement") {
            push_from_import(t, n, false, true, &mut out);
        }
        if kind_is(t, n, "if_statement") {
            push_checked_imports(t, n, &mut out);
        }
        assert(imports_view(out@) =~= mid + (py_stmt_f(t))(n));
        k += 1;
    }
    assert(ch@.take(ch@.len() as int) =~= ch@);
    out
}


// ---------------------------------------------------------------------------
// Exports
// ---------------------------------------------------------------------------

/// The content of a string literal: inside triple quotes (nothing when the
/// literal is too short to hold two sets of them), inside matching single
/// or double quotes, or the text itself.
pub open spec fn py_string_content(s: Seq<char>) -> Seq<char> {
    if "\"\"\""@.is_prefix_of(s) || "'''"@.is_prefix_of(s) {
        if s.len() >= 6 {
            s.subrange(3, s.len() - 3)
        } else {
            Seq::empty()
        }
    } else if s.len() >= 2 && (s[0] == '"' || s[0] == '\'') && s[0] == s[s.len() - 1] {
        s.subrange(1, s.len() - 1)
    } else {
        s
    }
}

/// A plain export of `name`.
pub open spec fn py_export(name: Seq<char>) -> ExportView {
    ExportView { name, is_re_export: false, source: None }
}

/// The assignment of statement `n` when it assigns to `__all__`.
pub open spec fn all_assignment(t: &SyntaxTree, n: int) -> Option<usize> {
    if t.kind_of(n) == "expression_statement"@ {
        match first_child_of_kind(t, n, "assignment"@) {
            Some(a) => {
                let ch = t.children_of(a as int);
                if ch.len() > 0 && t.kind_of(ch[0] as int) == "identifier"@ && t.text_opt_at(ch[0] as int) == Some(
                    "__all__"@,
                ) {
                    Some(a)
                } else {
                    None
                }
            },
            None => None,
        }
    } else {
        None
    }
}

/// The export a string item of the `__all__` list names.
pub open spec fn all_item_f(t: &SyntaxTree) -> spec_fn(usize) -> Seq<ExportView> {
    |i: usize|
        if t.kind_of(i as int) == "string"@ {
            match t.text_opt_at(i as int) {
                Some(s) => seq![py_export(py_string_content(s))],
                None => Seq::empty(),
            }
        } else {
            Seq::empty()
        }
}

/// The exports a list child of the `__all__` assignment names.
pub open spec fn all_child_f(t: &SyntaxTree) -> spec_fn(usize) -> Seq<ExportView> {
    |c: usize|
        if t.kind_of(c as int) == "list"@ {
            flat_map(t.children_of(c as int), all_item_f(t))
        } else {
            Seq::empty()
        }
}

/// The exports an `__all__` statement lists.
pub open spec fn all_exports_f(t: &SyntaxTree) -> spec_fn(usize) -> Seq<ExportView> {
    |n: usize|
        match all_assignment(t, n as int) {
            Some(a) => flat_map(t.children_of(a as int), all_child_f(t)),
            None => Seq::empty(),
        }
}

/// Whether the module assigns `__all__`.
pub open spec fn has_all(t: &SyntaxTree) -> bool {
    exists|j: int| 0 <= j < t.children_of(0).len() && (#[trigger] all_assignment(t, t.children_of(0)[j] as int)) is Some
}

/// The export named by identifier node `o`, unless the name starts with `_`.
pub open spec fn public_name(t: &SyntaxTree, o: Option<usize>) -> Seq<ExportView> {
    match o {
        Some(i) => match t.text_opt_at(i as int) {
            Some(name) => if name.len() > 0 && name[0] == '_' {
                Seq::empty()
            } else {
                seq![py_export(name)]
            },
            None => Seq::empty(),
        },
        None => Seq::empty(),
    }
}

/// The definition inside a decorated definition: its function, or else its class.
pub open spec fn decorated_def(t: &SyntaxTree, n: int) -> Option<usize> {
    match first_child_of_kind(t, n, "function_definition"@) {
        Some(d) => Some(d),
        None => first_child_of_kind(t, n, "class_definition"@),
    }
}

/// The public definitions of one top-level statement.
pub open spec fn public_def_f(t: &SyntaxTree) -> spec_fn(usize) -> Seq<ExportView> {
    |n: usize|
        (if t.kind_of(n as int) == "function_definition"@ || t.kind_of(n as int) == "decorated_definition"@ {
            let def = if t.kind_of(n as int) == "decorated_definition"@ {
                decorated_def(t, n as int)
            } else {
                Some(n)
            };
            match def {
                Some(d) => public_name(t, first_child_of_kind(t, d as int, "identifier"@)),
                None => Seq::empty(),
            }
        } else {
            Seq::empty()
        }) + (if t.kind_of(n as int) == "class_definition"@ {
            public_name(t, first_child_of_kind(t, n as int, "identifier"@))
        } else {
            Seq::empty()
        })
}

/// The exports of a Python module: the names `__all__` lists, and when it
/// is not assigned, the top-level functions and classes whose names do not
/// start with `_`.
pub open spec fn py_exports_spec(t: &SyntaxTree) -> Seq<ExportView> {
    flat_map(t.children_of(0), all_exports_f(t)) + if has_all(t) {
        Seq::empty()
    } else {
        flat_map(t.children_of(0), public_def_f(t))
    }
}

/// `py_string_content` on characters.
fn py_string_content_exec(s: &Vec<char>) -> (r: Vec<char>)
    ensures
        r@ == py_string_content(s@),
{
    let dq = crate::text::chars_of("\"\"\"");
    let sq = crate::text::chars_of("'''");
    if crate::text::starts_with(s, &dq) || crate::text::starts_with(s, &sq) {
        if s.len() >= 6 {
            crate::text::slice(s, 3, s.len() - 3)
        } else {
            Vec::new()
        }
    } else if s.len() >= 2 && (s[0] == '"' || s[0] == '\'') && s[0] == s[s.len() - 1] {
        crate::text::slice(s, 1, s.len() - 1)
    } else {
        crate::text::slice(s, 0, s.len())
    }
}

/// An export of `name`.
fn py_export_exec(name: &Vec<char>) -> (r: RawExport)
    ensures
        r@ == py_export(name@),
{
    RawExport { name: string_of(name), is_re_export: false, source: None }
}

/// The `__all__` assignment of statement `n`.
fn all_assignment_exec(t: &SyntaxTree, n: usize) -> (r: Option<usize>)
    requires
        n < t.size(),
    ensures
        r == all_assignment(t, n as int),
        r matches Some(a) ==> n < a < t.size(),
{
    proof {
        reveal_strlit("__all__");
    }
    if !kind_is(t, n, "expression_statement") {
        return None;
    }
    match t.child_of_kind(n, "assignment") {
        Some(a) => {
            let ch = t.children(a);
            if ch.len() > 0 && kind_is(t, ch[0], "identifier") {
                match t.text_opt(ch[0]) {
                    Some(v) => if crate::text::eq(&v, &crate::text::chars_of("__all__")) {
                        Some(a)
                    } else {
                        None
                    },
                    None => None,
                }
            } else {
                None
            }
        },
        None => None,
    }
}

/// Push the exports listed by the children of `__all__` assignment `a`.
fn push_all_exports(t: &SyntaxTree, a: usize, out: &mut Vec<RawExport>)
    requires
        a < t.size(),
    ensures
        exports_view(final(out)@) == exports_view(old(out)@) + flat_map(t.children_of(a as int), all_child_f(t)),
{
    let ghost before = exports_view(out@);
    let ch = t.children(a);
    let mut k: usize = 0;
    while k < ch.len()
        invariant
            0 <= k <= ch@.len(),
            ch@ == t.children_of(a as int),
            forall|j: int| 0 <= j < ch@.len() ==> a < #[trigger] ch@[j] < t.size(),
            exports_view(out@) == before + flat_map(ch@.take(k as int), all_child_f(t)),
        decreases ch.len() - k,
    {
        proof {
            lemma_flat_map_step(ch@, all_child_f(t), k as int);
        }
        let c = ch[k];
        let ghost mid = exports_view(out@);
        if kind_is(t, c, "list") {
            let items = t.children(c);
            let mut m: usize = 0;
            while m < items.len()
                invariant
                    0 <= m <= items@.len(),
                    items@ == t.children_of(c as int),
                    forall|j: int| 0 <= j < items@.len() ==> c < #[trigger] items@[j] < t.size(),
                    exports_view(out@) == mid + flat_map(items@.take(m as int), all_item_f(t)),
                decreases items.len() - m,
            {
                proof {
                    lemma_flat_map_step(items@, all_item_f(t), m as int);
                }
                let i = items[m];
                let ghost mid2 = exports_view(out@);
                if kind_is(t, i, "string") {
                    match t.text_opt(i) {
                        Some(v) => {
                            out.push(py_export_exec(&py_string_content_exec(&v)));
                        },
                        None => {},
                    }
                }
                assert(exports_view(out@) =~= mid2 + (all_item_f(t))(i));
                m += 1;
            }
            assert(items@.take(items@.len() as int) =~= items@);
        }
        assert(exports_view(out@) =~= mid + (all_child_f(t))(c));
        k += 1;
    }
    assert(ch@.take(ch@.len() as int) =~= ch@);
}

/// Push the export named by identifier node `o`, unless private.
fn push_public_name(t: &SyntaxTree, o: Option<usize>, out: &mut Vec<RawExport>)
    requires
        o matches Some(i) ==> i < t.size(),
    ensures
        exports_view(final(out)@) == exports_view(old(out)@) + public_name(t, o),
{
    let ghost before = exports_view(out@);
    match o {
        Some(i) => match t.text_opt(i) {
            Some(name) => {
                if !(name.len() > 0 && name[0] == '_') {
                    out.push(py_export_exec(&name));
                }
            },
            None => {},
        },
        None => {},
    }
    assert(exports_view(out@) =~= before + public_name(t, o));
}

/// The definition inside decorated definition `n`.
fn decorated_def_exec(t: &SyntaxTree, n: usize) -> (r: Option<usize>)
    requires
        n < t.size(),
    ensures
        r == decorated_def(t, n as int),
        r matches Some(d) ==> n < d < t.size(),
{
    match t.child_of_kind(n, "function_definition") {
        Some(d) => Some(d),
        None => t.child_of_kind(n, "class_definition"),
    }
}

/// The exports of a Python module.
pub fn py_extract_exports(t: &SyntaxTree) -> (r: Vec<RawExport>)
    ensures
        exports_view(r@) == py_exports_spec(t),
{
    let mut out: Vec<RawExport> = Vec::new();
    let _ = t.len();
    let ch = t.children(0);
    let mut found = false;
    let mut k: usize = 0;
    while k < ch.len()
        invariant
            0 <= k <= ch@.len(),
            ch@ == t.children_of(0),
            forall|j: int| 0 <= j < ch@.len() ==> 0 < #[trigger] ch@[j] < t.size(),
            exports_view(out@) == flat_map(ch@.take(k as int), all_exports_f(t)),
            found == exists|j: int| 0 <= j < k && (#[trigger] all_assignment(t, ch@[j] as int)) is Some,
        decreases ch.len() - k,
    {
        proof {
            lemma_flat_map_step(ch@, all_exports_f(t), k as int);
        }
        let n = ch[k];
        let ghost mid = exports_view(out@);
        match all_assignment_exec(t, n) {
            Some(a) => {
                found = true;
                push_all_exports(t, a, &mut out);
            },
            None => {},
        }
        assert(exports_view(out@) =~= mid + (all_exports_f(t))(n));
        proof {
            if found {
                if all_assignment(t, ch@[k as int] as int) is None {
                    let w = choose|j: int| 0 <= j < k && (#[trigger] all_assignment(t, ch@[j] as int)) is Some;
                    assert(0 <= w < k + 1);
                }
            }
        }
        k += 1;
    }
    assert(ch@.take(ch@.len() as int) =~= ch@);
    assert(found == has_all(t));
    let ghost listed = exports_view(out@);
    if !found {
        let mut k: usize = 0;
        while k < ch.len()
            invariant
                0 <= k <= ch@.len(),
                ch@ == t.children_of(0),
                forall|j: int| 0 <= j < ch@.len() ==> 0 < #[trigger] ch@[j] < t.size(),
                exports_view(out@) == listed + flat_map(ch@.take(k as int), public_def_f(t)),
            decreases ch.len() - k,
        {
            proof {
                lemma_flat_map_step(ch@, public_def_f(t), k as int);
            }
            let n = ch[k];
            let ghost mid = exports_view(out@);
            if kind_is(t, n, "function_definition") || kind_is(t, n, "decorated_definition") {
                let def = if kind_is(t, n, "decorated_definition") {
                    decorated_def_exec(t, n)
                } else {
                    Some(n)
                };
                match def {
                    Some(d) => {
                        let id = t.child_of_kind(d, "identifier");
                        push_public_name(t, id, &mut out);
                    },
                    None => {},
                }
            }
            if kind_is(t, n, "class_definition") {
                let id = t.child_of_kind(n, "identifier");
                push_public_name(t, id, &mut out);
            }
            assert(exports_view(out@) =~= mid + (public_def_f(t))(n));
            k += 1;
        }
        assert(ch@.take(ch@.len() as int) =~= ch@);
    }
    assert(exports_view(out@) =~= py_exports_spec(t));
    out
}


// ---------------------------------------------------------------------------
// Symbols
// ---------------------------------------------------------------------------

/// Private when the name starts with `_`, public otherwise.
pub open spec fn py_vis(name: Seq<char>) -> Visibility {
    if name.len() > 0 && name[0] == '_' {
        Visibility::Private
    } else {
        Visibility::Public
    }
}

/// A method inside a class, a function elsewhere.
pub open spec fn fn_kind(parent: Option<Seq<char>>) -> SymbolKind {
    if parent is Some {
        SymbolKind::Method
    } else {
        SymbolKind::Function
    }
}

/// A symbol named `name`, declared by node `span_node`, with the signature
/// of node `sig_node`.
pub open spec fn py_symbol(
    t: &SyntaxTree,
    name: Seq<char>,
    kind: SymbolKind,
    span_node: int,
    sig_node: int,
    parent: Option<Seq<char>>,
) -> SymbolView {
    SymbolView { name, kind, visibility: py_vis(name), span: span_of(t, span_node), signature: line_sig(t, sig_node), parent }
}

/// The function that definition `def` declares (none for `self`).
pub open spec fn fn_symbol(t: &SyntaxTree, def: int, span_node: int, parent: Option<Seq<char>>) -> Seq<SymbolView> {
    match first_child_of_kind(t, def, "identifier"@) {
        Some(i) => match t.text_opt_at(i as int) {
            Some(name) => if name == "self"@ {
                Seq::empty()
            } else {
                seq![py_symbol(t, name, fn_kind(parent), span_node, def, parent)]
            },
            None => Seq::empty(),
        },
        None => Seq::empty(),
    }
}

/// The name of class definition `def`.
pub open spec fn class_name_of(t: &SyntaxTree, def: int) -> Option<Seq<char>> {
    match first_child_of_kind(t, def, "identifier"@) {
        Some(i) => t.text_opt_at(i as int),
        None => None,
    }
}

/// The class symbol of class definition `def`.
pub open spec fn class_symbol(t: &SyntaxTree, def: int, span_node: int, parent: Option<Seq<char>>) -> Seq<SymbolView> {
    match class_name_of(t, def) {
        Some(name) => seq![py_symbol(t, name, SymbolKind::Class, span_node, def, parent)],
        None => Seq::empty(),
    }
}

/// The constant an expression statement `c` assigns, if its target is an
/// `UPPER_CASE` identifier.
pub open spec fn const_symbol(t: &SyntaxTree, c: int, parent: Option<Seq<char>>) -> Seq<SymbolView> {
    match first_child_of_kind(t, c, "assignment"@) {
        Some(a) => {
            let ch = t.children_of(a as int);
            if ch.len() > 0 && t.kind_of(ch[0] as int) == "identifier"@ {
                match t.text_opt_at(ch[0] as int) {
                    Some(name) => if upper_case_const(name) {
                        seq![py_symbol(t, name, SymbolKind::Const, c, c, parent)]
                    } else {
                        Seq::empty()
                    },
                    None => Seq::empty(),
                }
            } else {
                Seq::empty()
            }
        },
        None => Seq::empty(),
    }
}

/// The symbols of the body of class definition `def`, with the class
/// name as their parent.
pub open spec fn class_body(t: &SyntaxTree, n: int, def: int) -> Seq<SymbolView>
    decreases t.size() - n, 0int,
{
    match first_child_of_kind(t, def, "block"@) {
        Some(b) => if n < b < t.size() {
            py_symbols_of(t, b as int, t.children_of(b as int).len() as int, class_name_of(t, def))
        } else {
            Seq::empty()
        },
        None => Seq::empty(),
    }
}

/// The symbols of child `c` when it is a function definition.
pub open spec fn fn_part(t: &SyntaxTree, c: int, parent: Option<Seq<char>>) -> Seq<SymbolView> {
    if t.kind_of(c) == "function_definition"@ {
        fn_symbol(t, c, c, parent)
    } else {
        Seq::empty()
    }
}

/// The symbols of child `c` of `n` when it is a decorated definition.
pub open spec fn decorated_part(t: &SyntaxTree, n: int, c: int, parent: Option<Seq<char>>) -> Seq<SymbolView>
    decreases t.size() - n, 1int,
{
    if t.kind_of(c) == "decorated_definition"@ {
        match decorated_def(t, c) {
            Some(d) => if t.kind_of(d as int) == "class_definition"@ {
                class_symbol(t, d as int, c, parent) + class_body(t, n, d as int)
            } else {
                fn_symbol(t, d as int, c, parent)
            },
            None => Seq::empty(),
        }
    } else {
        Seq::empty()
    }
}

/// The symbols of child `c` of `n` when it is a class definition.
pub open spec fn class_part(t: &SyntaxTree, n: int, c: int, parent: Option<Seq<char>>) -> Seq<SymbolView>
    decreases t.size() - n, 1int,
{
    if t.kind_of(c) == "class_definition"@ {
        class_symbol(t, c, c, parent) + class_body(t, n, c)
    } else {
        Seq::empty()
    }
}

/// The symbols of child `c` when it is an expression statement.
pub open spec fn const_part(t: &SyntaxTree, c: int, parent: Option<Seq<char>>) -> Seq<SymbolView> {
    if t.kind_of(c) == "expression_statement"@ {
        const_symbol(t, c, parent)
    } else {
        Seq::empty()
    }
}

/// The symbols child `c` of `n` defines: a function (a method inside a
/// class), a class with the symbols of its body, a decorated definition,
/// or an `UPPER_CASE` constant.
pub open spec fn py_child_symbols(t: &SyntaxTree, n: int, c: int, parent: Option<Seq<char>>) -> Seq<SymbolView>
    decreases t.size() - n, 2int,
{
    fn_part(t, c, parent) + decorated_part(t, n, c, parent) + class_part(t, n, c, parent) + const_part(t, c, parent)
}

/// The symbols the first `k` children of `n` define.
pub open spec fn py_symbols_of(t: &SyntaxTree, n: int, k: int, parent: Option<Seq<char>>) -> Seq<SymbolView>
    decreases t.size() - n, k + 3,
{
    let ch = t.children_of(n);
    if k <= 0 || k > ch.len() {
        Seq::empty()
    } else {
        py_symbols_of(t, n, k - 1, parent) + py_child_symbols(t, n, ch[k - 1] as int, parent)
    }
}

/// The symbols a Python module defines.
pub open spec fn py_symbols_spec(t: &SyntaxTree) -> Seq<SymbolView> {
    py_symbols_of(t, 0, t.children_of(0).len() as int, None)
}

/// A symbol value.
fn py_symbol_exec(
    t: &SyntaxTree,
    name: &Vec<char>,
    kind: SymbolKind,
    span_node: usize,
    sig_node: usize,
    parent: &Option<String>,
) -> (r: SymbolDef)
    requires
        span_node < t.size(),
        sig_node < t.size(),
    ensures
        r@ == py_symbol(t, name@, kind, span_node as int, sig_node as int, opt_str(*parent)),
{
    let vis = if name.len() > 0 && name[0] == '_' {
        Visibility::Private
    } else {
        Visibility::Public
    };
    SymbolDef {
        name: string_of(name),
        kind,
        visibility: vis,
        span: span_exec(t, span_node),
        signature: line_sig_exec(t, sig_node),
        parent: clone_opt_string(parent),
    }
}

/// Push the function symbol of definition `def`.
fn push_fn_symbol(t: &SyntaxTree, def: usize, span_node: usize, parent: &Option<String>, out: &mut Vec<SymbolDef>)
    requires
        def < t.size(),
        span_node < t.size(),
    ensures
        symbols_view(final(out)@) == symbols_view(old(out)@) + fn_symbol(t, def as int, span_node as int, opt_str(*parent)),
{
    let ghost before = symbols_view(out@);
    proof {
        reveal_strlit("self");
    }
    match t.child_of_kind(def, "identifier") {
        Some(i) => match t.text_opt(i) {
            Some(name) => {
                if !crate::text::eq(&name, &crate::text::chars_of("self")) {
                    let kind = if parent.is_some() {
                        SymbolKind::Method
                    } else {
                        SymbolKind::Function
                    };
                    out.push(py_symbol_exec(t, &name, kind, span_node, def, parent));
                }
            },
            None => {},
        },
        None => {},
    }
    assert(symbols_view(out@) =~= before + fn_symbol(t, def as int, span_node as int, opt_str(*parent)));
}

/// The name of class definition `def`.
fn class_name_exec(t: &SyntaxTree, def: usize) -> (r: Option<String>)
    requires
        def < t.size(),
    ensures
        opt_str(r) == class_name_of(t, def as int),
{
    match t.child_of_kind(def, "identifier") {
        Some(i) => match t.text_opt(i) {
            Some(v) => Some(string_of(&v)),
            None => None,
        },
        None => None,
    }
}

/// Push the constant symbol of expression statement `c`.
fn push_const_symbol(t: &SyntaxTree, c: usize, parent: &Option<String>, out: &mut Vec<SymbolDef>)
    requires
        c < t.size(),
    ensures
        symbols_view(final(out)@) == symbols_view(old(out)@) + const_symbol(t, c as int, opt_str(*parent)),
{
    let ghost before = symbols_view(out@);
    match t.child_of_kind(c, "assignment") {
        Some(a) => {
            let ch = t.children(a);
            if ch.len() > 0 && kind_is(t, ch[0], "identifier") {
                match t.text_opt(ch[0]) {
                    Some(name) => {
                        if upper_case_const_exec(&name) {
                            out.push(py_symbol_exec(t, &name, SymbolKind::Const, c, c, parent));
                        }
                    },
                    None => {},
                }
            }
        },
        None => {},
    }
    assert(symbols_view(out@) =~= before + const_symbol(t, c as int, opt_str(*parent)));
}

/// Push the symbols of class definition `def` (declared by `span_node`),
/// then those of its body, `n` being the node whose children are walked.
fn push_class(t: &SyntaxTree, n: usize, def: usize, span_node: usize, parent: &Option<String>, out: &mut Vec<SymbolDef>)
    requires
        n < def < t.size(),
        n < span_node < t.size(),
    ensures
        symbols_view(final(out)@) == symbols_view(old(out)@) + class_symbol(t, def as int, span_node as int, opt_str(*parent))
            + class_body(t, n as int, def as int),
    decreases t.size() - n, 0int,
{
    let ghost before = symbols_view(out@);
    let name = class_name_exec(t, def);
    match &name {
        Some(nm) => {
            let v = crate::text::chars_of(nm.as_str());
            out.push(py_symbol_exec(t, &v, SymbolKind::Class, span_node, def, parent));
        },
        None => {},
    }
    let ghost mid = symbols_view(out@);
    assert(mid =~= before + class_symbol(t, def as int, span_node as int, opt_str(*parent)));
    match t.child_of_kind(def, "block") {
        Some(b) => {
            push_py_symbols(t, b, &name, out);
        },
        None => {
            assert(symbols_view(out@) =~= mid + Seq::<SymbolView>::empty());
        },
    }
}

/// Push the symbols of decorated definition `c`, a child of `n`.
fn push_decorated(t: &SyntaxTree, n: usize, c: usize, parent: &Option<String>, out: &mut Vec<SymbolDef>)
    requires
        n < c < t.size(),
    ensures
        symbols_view(final(out)@) == symbols_view(old(out)@) + decorated_part(t, n as int, c as int, opt_str(*parent)),
    decreases t.size() - n, 1int,
{
    let ghost m0 = symbols_view(out@);
    if kind_is(t, c, "decorated_definition") {
        match decorated_def_exec(t, c) {
            Some(d) => {
                if kind_is(t, d, "class_definition") {
                    push_class(t, n, d, c, parent, out);
                } else {
                    push_fn_symbol(t, d, c, parent, out);
                }
            },
            None => {},
        }
    }
    assert(symbols_view(out@) =~= m0 + decorated_part(t, n as int, c as int, opt_str(*parent)));
}

/// Push the symbols of child `c` when it is a function definition.
fn push_fn_part(t: &SyntaxTree, c: usize, parent: &Option<String>, out: &mut Vec<SymbolDef>)
    requires
        c < t.size(),
    ensures
        symbols_view(final(out)@) == symbols_view(old(out)@) + fn_part(t, c as int, opt_str(*parent)),
{
    let ghost m0 = symbols_view(out@);
    if kind_is(t, c, "function_definition") {
        push_fn_symbol(t, c, c, parent, out);
    }
    assert(symbols_view(out@) =~= m0 + fn_part(t, c as int, opt_str(*parent)));
}

/// Push the symbols of child `c` of `n` when it is a class definition.
fn push_class_part(t: &SyntaxTree, n: usize, c: usize, parent: &Option<String>, out: &mut Vec<SymbolDef>)
    requires
        n < c < t.size(),
    ensures
        symbols_view(final(out)@) == symbols_view(old(out)@) + class_part(t, n as int, c as int, opt_str(*parent)),
    decreases t.size() - n, 1int,
{
    let ghost m0 = symbols_view(out@);
    if kind_is(t, c, "class_definition") {
        push_class(t, n, c, c, parent, out);
    }
    assert(symbols_view(out@) =~= m0 + class_part(t, n as int, c as int, opt_str(*parent)));
}

/// Push the symbols of child `c` when it is an expression statement.
fn push_const_part(t: &SyntaxTree, c: usize, parent: &Option<String>, out: &mut Vec<SymbolDef>)
    requires
        c < t.size(),
    ensures
        symbols_view(final(out)@) == symbols_view(old(out)@) + const_part(t, c as int, opt_str(*parent)),
{
    let ghost m0 = symbols_view(out@);
    if kind_is(t, c, "expression_statement") {
        push_const_symbol(t, c, parent, out);
    }
    assert(symbols_view(out@) =~= m0 + const_part(t, c as int, opt_str(*parent)));
}

/// Push the symbols child `c` of `n` defines.
#[verifier::spinoff_prover]
#[verifier::rlimit(40)]
fn push_child_symbols(t: &SyntaxTree, n: usize, c: usize, parent: &Option<String>, out: &mut Vec<SymbolDef>)
    requires
        n < c < t.size(),
    ensures
        symbols_view(final(out)@) == symbols_view(old(out)@) + py_child_symbols(t, n as int, c as int, opt_str(*parent)),
    decreases t.size() - n, 2int,
{
    let ghost p = opt_str(*parent);
    let ghost m0 = symbols_view(out@);
    push_fn_part(t, c, parent, out);
    push_decorated(t, n, c, parent, out);
    push_class_part(t, n, c, parent, out);
    push_const_part(t, c, parent, out);
    assert(symbols_view(out@) =~= m0 + (fn_part(t, c as int, p) + decorated_part(t, n as int, c as int, p)
        + class_part(t, n as int, c as int, p) + const_part(t, c as int, p)));
}

/// Push the symbols the children of `n` define.
#[verifier::spinoff_prover]
#[verifier::rlimit(40)]
fn push_py_symbols(t: &SyntaxTree, n: usize, parent: &Option<String>, out: &mut Vec<SymbolDef>)
    requires
        n < t.size(),
    ensures
        symbols_view(final(out)@) == symbols_view(old(out)@) + py_symbols_of(
            t,
            n as int,
            t.children_of(n as int).len() as int,
            opt_str(*parent),
        ),
    decreases t.size() - n, 3int,
{
    let ghost before = symbols_view(out@);
    let ghost p = opt_str(*parent);
    let ch = t.children(n);
    let mut k: usize = 0;
    while k < ch.len()
        invariant
            0 <= k <= ch@.len(),
            n < t.size(),
            ch@ == t.children_of(n as int),
            p == opt_str(*parent),
            forall|j: int| 0 <= j < ch@.len() ==> n < #[trigger] ch@[j] < t.size(),
            symbols_view(out@) == before + py_symbols_of(t, n as int, k as int, p),
        decreases ch.len() - k,
    {
        let c = ch[k];
        push_child_symbols(t, n, c, parent, out);
        assert(symbols_view(out@) =~= before + py_symbols_of(t, n as int, k + 1, p));
        k += 1;
    }
}

/// The symbols a Python module defines.
pub fn py_extract_symbols(t: &SyntaxTree) -> (r: Vec<SymbolDef>)
    ensures
        symbols_view(r@) == py_symbols_spec(t),
{
    let mut out: Vec<SymbolDef> = Vec::new();
    let _ = t.len();
    push_py_symbols(t, 0, &None, &mut out);
    assert(symbols_view(out@) =~= py_symbols_spec(t));
    out
}


/// Parser of Python modules (`.py`, `.pyi`).
#[derive(Debug)]
pub struct PythonParser;

impl PythonParser {
    /// The parser.
    pub fn new() -> PythonParser {
        PythonParser
    }

    /// The language name.
    pub fn language(&self) -> (r: &'static str)
        ensures
            r@ == "python"@,
    {
        "python"
    }

    /// The file extensions handled.
    pub fn extensions(&self) -> (r: Vec<&'static str>)
        ensures
            r@.len() == 2,
            r@[0]@ == "py"@,
            r@[1]@ == "pyi"@,
    {
        let mut v: Vec<&'static str> = Vec::new();
        v.push("py");
        v.push("pyi");
        v
    }

    /// The imports of a module.
    pub fn extract_imports(&self, t: &SyntaxTree) -> (r: Vec<RawImport>)
        ensures
            imports_view(r@) == py_imports_spec(t),
    {
        py_extract_imports(t)
    }

    /// The exports of a module.
    pub fn extract_exports(&self, t: &SyntaxTree) -> (r: Vec<RawExport>)
        ensures
            exports_view(r@) == py_exports_spec(t),
    {
        py_extract_exports(t)
    }

    /// The symbols a module defines.
    pub fn extract_symbols(&self, t: &SyntaxTree) -> (r: Vec<SymbolDef>)
        ensures
            symbols_view(r@) == py_symbols_spec(t),
    {
        py_extract_symbols(t)
    }
}

} // verus!
