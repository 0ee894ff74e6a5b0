//! Graph-building decisions: how a resolved import becomes an edge, how a
//! crate's own name in a Rust import is read, and which source file a test
//! file tests by its name alone.
use vstd::prelude::*;
use crate::model::{canon_spec, file_name_spec, parent_spec, path_views, CanonicalPath, FileSet};
use crate::parser::traits::ImportKind;
use crate::text::{chars_of, concat, ends_with, starts_with, string_of, strip_prefix, strip_suffix};

verus! {

/// The kind of a dependency edge.
#[derive(Clone, Copy, Debug, PartialEq, Eq, Structural)]
pub enum EdgeType {
    /// An ordinary import.
    Imports,
    /// An import of types only.
    TypeImports,
    /// A test file's dependency on the code it tests.
    Tests,
    /// A re-export of another module's item.
    ReExports,
    /// A document's link to another file.
    References,
}

// ---------------------------------------------------------------------------
// Crate-name imports
// ---------------------------------------------------------------------------

/// `path` with a leading crate name `name` read as `crate`: `name::rest`
/// becomes `crate::rest`, `name` alone becomes `crate`, and anything else
/// (another crate whose name merely begins with `name`) stays as it is.
pub open spec fn crate_rewrite_spec(path: Seq<char>, name: Seq<char>) -> Seq<char> {
    if name.is_prefix_of(path) {
        let rest = path.skip(name.len() as int);
        if rest.len() == 0 {
            "crate"@
        } else if "::"@.is_prefix_of(rest) {
            "crate::"@ + rest.skip("::"@.len() as int)
        } else {
            path
        }
    } else {
        path
    }
}

/// An import path as the graph resolves it: with the project's own crate
/// name, when there is one, read as `crate` (`crate_rewrite_spec`).
pub fn rewrite_crate_import(path: &str, crate_name: Option<&str>) -> (r: String)
    ensures
        match crate_name {
            Some(name) => r@ == crate_rewrite_spec(path@, name@),
            None => r@ == path@,
        },
{
    let p = chars_of(path);
    let name = match crate_name {
        Some(n) => chars_of(n),
        None => {
            return string_of(&p);
        },
    };
    match strip_prefix(&p, &name) {
        None => string_of(&p),
        Some(rest) => {
            if rest.len() == 0 {
                string_of(&chars_of("crate"))
            } else {
                match strip_prefix(&rest, &chars_of("::")) {
                    Some(tail) => string_of(&concat(&chars_of("crate::"), &tail)),
                    None => string_of(&p),
                }
            }
        },
    }
}

// ---------------------------------------------------------------------------
// Edge kinds
// ---------------------------------------------------------------------------

/// The kind of the edge for a resolved import: a document link references;
/// a test file's import of source or type-definition code tests; otherwise
/// a type-only import imports types, and any other import imports.
pub open spec fn edge_type_spec(
    source_is_test: bool,
    target_is_code: bool,
    is_type_only: bool,
    kind: ImportKind,
) -> EdgeType {
    if kind == ImportKind::Link {
        EdgeType::References
    } else if source_is_test && target_is_code {
        EdgeType::Tests
    } else if is_type_only {
        EdgeType::TypeImports
    } else {
        EdgeType::Imports
    }
}

/// The kind of the edge for a resolved import (`edge_type_spec`).
/// `source_is_test` says that the importing file is a test file;
/// `target_is_code` that the imported file is source or type-definition
/// code.
pub fn classify_edge_type(
    source_is_test: bool,
    target_is_code: bool,
    is_type_only: bool,
    kind: ImportKind,
) -> (r: EdgeType)
    ensures
        r == edge_type_spec(source_is_test, target_is_code, is_type_only, kind),
{
    match kind {
        ImportKind::Link => EdgeType::References,
        _ => {
            if source_is_test && target_is_code {
                EdgeType::Tests
            } else if is_type_only {
                EdgeType::TypeImports
            } else {
                EdgeType::Imports
            }
        },
    }
}

/// The edge kind a classification gives: a document link always
/// references, whatever else holds; a test file's import of code always
/// tests, type-only or not; and any other import is a type import exactly
/// when it is type-only, whether or not the importing file is a test — so
/// two such imports that differ only there get the same kind.
pub proof fn lemma_edge_kinds(source_is_test: bool, target_is_code: bool, is_type_only: bool, kind: ImportKind)
    ensures
        kind == ImportKind::Link ==> edge_type_spec(source_is_test, target_is_code, is_type_only, kind)
            == EdgeType::References,
        kind != ImportKind::Link && source_is_test && target_is_code ==> edge_type_spec(
            source_is_test,
            target_is_code,
            is_type_only,
            kind,
        ) == EdgeType::Tests,
        kind != ImportKind::Link && !(source_is_test && target_is_code) ==> {
            &&& (edge_type_spec(source_is_test, target_is_code, is_type_only, kind) == EdgeType::TypeImports
                <==> is_type_only)
            &&& (edge_type_spec(source_is_test, target_is_code, is_type_only, kind) == EdgeType::Imports <==> !is_type_only)
            &&& edge_type_spec(source_is_test, target_is_code, is_type_only, kind) == edge_type_spec(
                false,
                target_is_code,
                is_type_only,
                kind,
            )
        },
{
}

// ---------------------------------------------------------------------------
// Test files paired with their sources by name
// ---------------------------------------------------------------------------

/// The test-file suffixes, each with the suffix of the source file it
/// stands for, in the order they are tried.
pub open spec fn test_suffixes() -> Seq<(Seq<char>, Seq<char>)> {
    seq![
        (".test.ts"@, ".ts"@),
        (".spec.ts"@, ".ts"@),
        (".test.tsx"@, ".tsx"@),
        (".spec.tsx"@, ".tsx"@),
        (".test.js"@, ".js"@),
        (".spec.js"@, ".js"@),
        (".test.jsx"@, ".jsx"@),
        (".spec.jsx"@, ".jsx"@),
        ("_test.go"@, ".go"@),
        ("_test.py"@, ".py"@),
    ]
}

/// The source path that the test suffix of `pair` names for `path`, when
/// `path` ends with that suffix.
pub open spec fn suffix_candidate(path: Seq<char>, pair: (Seq<char>, Seq<char>)) -> Option<Seq<char>> {
    if pair.0.is_suffix_of(path) {
        Some(canon_spec(path.take(path.len() - pair.0.len()) + pair.1))
    } else {
        None
    }
}

/// The first candidate of `pairs`, in order, that is one of `files`.
pub open spec fn first_suffix_source(
    path: Seq<char>,
    files: Seq<Seq<char>>,
    pairs: Seq<(Seq<char>, Seq<char>)>,
) -> Option<Seq<char>>
    decreases pairs.len(),
{
    if pairs.len() == 0 {
        None
    } else {
        let c = suffix_candidate(path, pairs[0]);
        if c is Some && files.contains(c->0) {
            c
        } else {
            first_suffix_source(path, files, pairs.skip(1))
        }
    }
}

/// A Python test named `test_x.py` stands for `x.py` in its own directory,
/// when that file is one of `files`.
pub open spec fn prefix_source(path: Seq<char>, files: Seq<Seq<char>>) -> Option<Seq<char>> {
    let name = file_name_spec(path);
    if "test_"@.is_prefix_of(name) && ".py"@.is_suffix_of(name) {
        let src = name.skip("test_"@.len() as int);
        let cand = match parent_spec(path) {
            Some(dir) => canon_spec(dir + "/"@ + src),
            None => canon_spec(src),
        };
        if files.contains(cand) {
            Some(cand)
        } else {
            None
        }
    } else {
        None
    }
}

/// The source file that the test file `path` tests by its name: the first
/// suffix rule whose source is one of `files`, else the `test_` prefix rule.
pub open spec fn test_source_spec(path: Seq<char>, files: Seq<Seq<char>>) -> Option<Seq<char>> {
    match first_suffix_source(path, files, test_suffixes()) {
        Some(s) => Some(s),
        None => prefix_source(path, files),
    }
}

fn test_suffix_pairs() -> (r: Vec<(Vec<char>, Vec<char>)>)
    ensures
        r@.len() == test_suffixes().len(),
        forall|i: int|
            0 <= i < r@.len() ==> (#[trigger] r@[i]).0@ == test_suffixes()[i].0 && r@[i].1@
                == test_suffixes()[i].1,
{
    let r = vec![
        (chars_of(".test.ts"), chars_of(".ts")),
        (chars_of(".spec.ts"), chars_of(".ts")),
        (chars_of(".test.tsx"), chars_of(".tsx")),
        (chars_of(".spec.tsx"), chars_of(".tsx")),
        (chars_of(".test.js"), chars_of(".js")),
        (chars_of(".spec.js"), chars_of(".js")),
        (chars_of(".test.jsx"), chars_of(".jsx")),
        (chars_of(".spec.jsx"), chars_of(".jsx")),
        (chars_of("_test.go"), chars_of(".go")),
        (chars_of("_test.py"), chars_of(".py")),
    ];
    r
}

proof fn lemma_first_suffix_step(
    path: Seq<char>,
    files: Seq<Seq<char>>,
    pairs: Seq<(Seq<char>, Seq<char>)>,
    i: int,
)
    requires
        0 <= i < pairs.len(),
    ensures
        first_suffix_source(path, files, pairs.skip(i)) == ({
            let c = suffix_candidate(path, pairs[i]);
            if c is Some && files.contains(c->0) {
                c
            } else {
                first_suffix_source(path, files, pairs.skip(i + 1))
            }
        }),
{
    assert(pairs.skip(i).skip(1) =~= pairs.skip(i + 1));
    assert(pairs.skip(i)[0] == pairs[i]);
}

/// The source file that the test file `path` tests by its name
/// (`test_source_spec`); it is always one of `files`.
pub fn test_source_for(path: &CanonicalPath, files: &FileSet) -> (r: Option<CanonicalPath>)
    ensures
        match r {
            Some(s) => test_source_spec(path@, files@) == Some(s@) && files@.contains(s@),
            None => test_source_spec(path@, files@) is None,
        },
{
    let p = path.chars();
    let pairs = test_suffix_pairs();
    let ghost spairs = test_suffixes();
    let mut i: usize = 0;
    proof {
        assert(spairs.skip(0) =~= spairs);
    }
    while i < pairs.len()
        invariant
            i <= pairs@.len(),
            p@ == path@,
            spairs == test_suffixes(),
            pairs@.len() == spairs.len(),
            forall|k: int|
                0 <= k < pairs@.len() ==> (#[trigger] pairs@[k]).0@ == spairs[k].0 && pairs@[k].1@
                    == spairs[k].1,
            first_suffix_source(path@, files@, spairs) == first_suffix_source(
                path@,
                files@,
                spairs.skip(i as int),
            ),
        decreases pairs@.len() - i,
    {
        proof {
            lemma_first_suffix_step(path@, files@, spairs, i as int);
        }
        let (ts, ss) = &pairs[i];
        match strip_suffix(&p, ts) {
            Some(stem) => {
                let cand = CanonicalPath::from_chars(&concat(&stem, ss));
                assert(suffix_candidate(path@, spairs[i as int]) == Some(cand@));
                if files.contains(&cand) {
                    return Some(cand);
                }
            },
            None => {
                assert(suffix_candidate(path@, spairs[i as int]) is None);
            },
        }
        i += 1;
    }
    proof {
        assert(spairs.skip(i as int).len() == 0);
    }
    let name = path.file_name();
    let prefix = chars_of("test_");
    if starts_with(&name, &prefix) && ends_with(&name, &chars_of(".py")) {
        let src = match strip_prefix(&name, &prefix) {
            Some(s) => s,
            None => {
                return None;
            },
        };
        let cand = match path.parent() {
            Some(dir) => CanonicalPath::from_chars(&concat(&concat(&dir, &chars_of("/")), &src)),
            None => CanonicalPath::from_chars(&src),
        };
        if files.contains(&cand) {
            Some(cand)
        } else {
            None
        }
    } else {
        None
    }
}

/// The naming-rule edges of the test files `tests`, in their order: each
/// test file with the source it tests, where `test_source_spec` finds one.
pub open spec fn test_edges_spec(tests: Seq<Seq<char>>, files: Seq<Seq<char>>) -> Seq<(Seq<char>, Seq<char>)>
    decreases tests.len(),
{
    if tests.len() == 0 {
        seq![]
    } else {
        let prev = test_edges_spec(tests.drop_last(), files);
        match test_source_spec(tests.last(), files) {
            Some(s) => prev.push((tests.last(), s)),
            None => prev,
        }
    }
}

/// The views of pairs of paths.
pub open spec fn pair_views(v: Seq<(CanonicalPath, CanonicalPath)>) -> Seq<(Seq<char>, Seq<char>)> {
    v.map_values(|e: (CanonicalPath, CanonicalPath)| (e.0@, e.1@))
}

/// The `Tests` edges that naming alone gives for the test files `tests`
/// (`test_edges_spec`), each as (test file, source file).
pub fn infer_test_edges_by_naming(tests: &Vec<CanonicalPath>, files: &FileSet) -> (r: Vec<(CanonicalPath, CanonicalPath)>)
    ensures
        pair_views(r@) == test_edges_spec(path_views(tests@), files@),
{
    let mut r: Vec<(CanonicalPath, CanonicalPath)> = Vec::new();
    let mut i: usize = 0;
    while i < tests.len()
        invariant
            i <= tests@.len(),
            pair_views(r@) == test_edges_spec(path_views(tests@).take(i as int), files@),
        decreases tests@.len() - i,
    {
        let ghost before = r@;
        proof {
            let t = path_views(tests@).take(i as int + 1);
            assert(t.drop_last() =~= path_views(tests@).take(i as int));
            assert(t.last() == tests@[i as int]@);
        }
        match test_source_for(&tests[i], files) {
            Some(s) => {
                r.push((tests[i].duplicate(), s));
                proof {
                    assert(pair_views(r@) =~= pair_views(before).push((tests@[i as int]@, r@.last().1@)));
                }
            },
            None => {},
        }
        i += 1;
    }
    proof {
        assert(path_views(tests@).take(tests@.len() as int) =~= path_views(tests@));
    }
    r
}

} // verus!
