//! Turning a resolver's answer for one import into the edge target.
use vstd::prelude::*;

use crate::diagnostic::DiagnosticCollector;
use crate::model::{canon_spec, CanonicalPath, FileSet};
use crate::parser::traits::RawImport;
use crate::recommend::placement::{lowercase_spec, to_lowercase};
use crate::text::{chars_of, eq};

verus! {

/// Position of the first of `files` that equals `target` once both are in
/// lower case.
pub open spec fn first_case_insensitive(files: Seq<Seq<char>>, target: Seq<char>) -> Option<int>
    decreases files.len(),
{
    if files.len() == 0 {
        None
    } else {
        match first_case_insensitive(files.drop_last(), target) {
            Some(j) => Some(j),
            None => if lowercase_spec(files.last()) == lowercase_spec(target) {
                Some(files.len() - 1)
            } else {
                None
            },
        }
    }
}

proof fn lemma_first_case_insensitive_prefix(files: Seq<Seq<char>>, target: Seq<char>, n: int)
    requires
        0 <= n <= files.len(),
        first_case_insensitive(files.take(n), target) is Some,
    ensures
        first_case_insensitive(files, target) == first_case_insensitive(files.take(n), target),
    decreases files.len() - n,
{
    if n < files.len() {
        assert(files.take(n + 1).drop_last() =~= files.take(n));
        lemma_first_case_insensitive_prefix(files, target, n + 1);
    } else {
        assert(files.take(n) =~= files);
    }
}

/// The first known file that names `path` when case is ignored.
pub fn find_case_insensitive(path: &CanonicalPath, known_files: &FileSet) -> (r: Option<CanonicalPath>)
    ensures
        match first_case_insensitive(known_files@, path@) {
            Some(j) => r matches Some(p) && p@ == known_files@[j],
            None => r is None,
        },
{
    let want = chars_of(to_lowercase(path.as_str()).as_str());
    let ps = known_files.paths();
    let ghost fs = known_files@;
    let mut i: usize = 0;
    while i < ps.len()
        invariant
            i <= ps@.len(),
            fs == known_files@,
            crate::model::path_views(ps@) == fs,
            want@ == lowercase_spec(path@),
            first_case_insensitive(fs.take(i as int), path@) is None,
        decreases ps.len() - i,
    {
        proof {
            assert(fs.take(i + 1).drop_last() =~= fs.take(i as int));
            assert(fs.take(i + 1).last() == fs[i as int]);
            assert(fs[i as int] == ps@[i as int]@);
        }
        let low = chars_of(to_lowercase(ps[i].as_str()).as_str());
        if eq(&low, &want) {
            proof {
                lemma_first_case_insensitive_prefix(fs, path@, i as int + 1);
            }
            return Some(ps[i].duplicate());
        }
        i += 1;
    }
    assert(fs.take(i as int) =~= fs);
    None
}

/// The target an import resolves to, before the self-import filter: the
/// resolver's answer, or, when there is none and the file system ignores
/// case, the first known file that names the import's path when case is
/// ignored.
pub open spec fn candidate(resolved: Option<Seq<char>>, import_path: Seq<char>, known: Seq<Seq<char>>, case_insensitive: bool) -> Option<Seq<char>> {
    match resolved {
        Some(p) => Some(p),
        None => if case_insensitive {
            match first_case_insensitive(known, canon_spec(import_path)) {
                Some(j) => Some(known[j]),
                None => None,
            }
        } else {
            None
        },
    }
}

/// Finish resolving one import from `from_file`, given what the resolver
/// answered: an import of the file itself is dropped, and an import left
/// without a target is counted as unresolved.
pub fn resolve_import(
    resolved: Option<CanonicalPath>,
    import: &RawImport,
    from_file: &CanonicalPath,
    known_files: &FileSet,
    case_insensitive: bool,
    diagnostics: &mut DiagnosticCollector,
) -> (r: Option<CanonicalPath>)
    ensures
        match candidate(
            match resolved {
                Some(p) => Some(p@),
                None => None,
            },
            import.path@,
            known_files@,
            case_insensitive,
        ) {
            Some(c) => (if c == from_file@ {
                r is None
            } else {
                r matches Some(p) && p@ == c
            }) && final(diagnostics).unresolved_count() == old(diagnostics).unresolved_count(),
            None => r is None && (old(diagnostics).unresolved_count() < usize::MAX
                ==> final(diagnostics).unresolved_count() == old(diagnostics).unresolved_count() + 1)
                && (old(diagnostics).unresolved_count() == usize::MAX
                ==> final(diagnostics).unresolved_count() == old(diagnostics).unresolved_count()),
        },
        final(diagnostics).codes() == old(diagnostics).codes(),
{
    let found = match resolved {
        Some(p) => Some(p),
        None => {
            if case_insensitive {
                let target = CanonicalPath::new(import.path.as_str());
                find_case_insensitive(&target, known_files)
            } else {
                None
            }
        },
    };
    match found {
        Some(p) => {
            if p.same(from_file) {
                None
            } else {
                Some(p)
            }
        },
        None => {
            diagnostics.increment_unresolved();
            None
        },
    }
}

} // verus!
